//! The Footnote Bottomer: removes footnote definitions from their inline
//! position, replaces references with anchors numbered by first use, and
//! appends the referenced definitions — with back-reference links — as an
//! ordered list at the end of the document.
//!
//! Nesting of definitions is tracked by a stack of buffers but not
//! validated: malformed nesting is accepted as-is and may renumber
//! silently. A definition-end event with no open definition passes
//! through unchanged.

use vstd::prelude::*;
use vstd::string::*;
use crate::chars::dec_digits;
use crate::chars::u64_to_string;
use crate::content::str_eq;
use crate::events::{MdEvent, EvSpec, evs};

verus! {

/// The models of a sequence of event buffers.
pub open spec fn bufs_view(s: Seq<Vec<MdEvent>>) -> Seq<Seq<EvSpec>> {
    s.map_values(|v: Vec<MdEvent>| evs(v@))
}

/// The model of the numbering table: labels paired with usage counts, in
/// first-use order.
pub open spec fn nums_view(s: Seq<(String, usize)>) -> Seq<(Seq<char>, int)> {
    s.map_values(|p: (String, usize)| (p.0@, p.1 as int))
}

/// The index of `l` in the numbering table, if present.
pub open spec fn find_num(s: Seq<(Seq<char>, int)>, l: Seq<char>) -> Option<int>
    decreases s.len(),
{
    if s.len() == 0 {
        None
    } else if s[0].0 == l {
        Some(0int)
    } else {
        match find_num(s.subrange(1, s.len() as int), l) {
            Some(i) => Some(i + 1),
            None => None,
        }
    }
}

/// The usage count recorded for `l`, zero when absent.
pub open spec fn count_of(s: Seq<(Seq<char>, int)>, l: Seq<char>) -> int {
    match find_num(s, l) {
        Some(i) => s[i].1,
        None => 0,
    }
}

pub proof fn lemma_find_num_props(s: Seq<(Seq<char>, int)>, l: Seq<char>)
    ensures
        match find_num(s, l) {
            Some(i) => 0 <= i < s.len() && s[i].0 == l && forall|j: int|
                0 <= j < i ==> s[j].0 != l,
            None => forall|j: int| 0 <= j < s.len() ==> s[j].0 != l,
        },
    decreases s.len(),
{
    if s.len() > 0 && s[0].0 != l {
        let u = s.subrange(1, s.len() as int);
        lemma_find_num_props(u, l);
        match find_num(u, l) {
            Some(i) => {
                assert(s[i + 1].0 == u[i].0);
                assert forall|j: int| 0 <= j < i + 1 implies s[j].0 != l by {
                    if j >= 1 {
                        assert(s[j].0 == u[j - 1].0);
                    }
                }
            },
            None => {
                assert forall|j: int| 0 <= j < s.len() implies s[j].0 != l by {
                    if j >= 1 {
                        assert(s[j].0 == u[j - 1].0);
                    }
                }
            },
        }
    }
}

proof fn lemma_find_num_skip(s: Seq<(Seq<char>, int)>, l: Seq<char>, i: int)
    requires
        0 <= i <= s.len(),
        forall|j: int| 0 <= j < i ==> s[j].0 != l,
    ensures
        find_num(s, l) == match find_num(s.subrange(i, s.len() as int), l) {
            Some(k) => Some(k + i),
            None => None::<int>,
        },
    decreases i,
{
    if i == 0 {
        assert(s.subrange(0, s.len() as int) =~= s);
        match find_num(s, l) {
            Some(k) => {
                assert(k + 0 == k);
            },
            None => {},
        }
    } else {
        let u = s.subrange(1, s.len() as int);
        lemma_find_num_skip(u, l, i - 1);
        assert(u.subrange(i - 1, u.len() as int) =~= s.subrange(i, s.len() as int));
    }
}

/// Looks `l` up in the exec numbering table, as [`find_num`] describes.
fn lookup_num(nums: &Vec<(String, usize)>, l: &str) -> (r: Option<usize>)
    ensures
        match r {
            Some(i) => i < nums@.len() && find_num(nums_view(nums@), l@) == Some(i as int),
            None => find_num(nums_view(nums@), l@) is None,
        },
{
    let mut i: usize = 0;
    while i < nums.len()
        invariant
            i <= nums@.len(),
            forall|j: int| 0 <= j < i ==> #[trigger] nums_view(nums@)[j].0 != l@,
        decreases nums@.len() - i,
    {
        if str_eq(nums[i].0.as_str(), l) {
            proof {
                lemma_find_num_skip(nums_view(nums@), l@, i as int);
                let suf = nums_view(nums@).subrange(i as int, nums@.len() as int);
                assert(suf[0].0 == l@);
            }
            return Some(i);
        }
        i = i + 1;
    }
    proof {
        lemma_find_num_skip(nums_view(nums@), l@, nums@.len() as int);
        assert(nums_view(nums@).subrange(nums@.len() as int, nums@.len() as int).len() == 0);
    }
    None
}

/// The inline anchor synthesized for the `nr`-th use of footnote `l`,
/// numbered `n`.
pub open spec fn anchor_html(l: Seq<char>, n: int, nr: int) -> Seq<char> {
    "<sup class=\"footnote-reference\" id=\"fr-"@ + l + "-"@ + dec_digits(nr as nat)
        + "\"><a href=\"#fn-"@ + l + "\">["@ + dec_digits(n as nat) + "]</a></sup>"@
}

/// Builds the inline anchor, as [`anchor_html`] describes.
fn build_anchor(l: &str, n: usize, nr: usize) -> (r: String)
    ensures
        r@ == anchor_html(l@, n as int, nr as int),
{
    let mut out = String::from_str("<sup class=\"footnote-reference\" id=\"fr-");
    out.append(l);
    out.append("-");
    let nr_s = u64_to_string(nr as u64);
    out.append(nr_s.as_str());
    out.append("\"><a href=\"#fn-");
    out.append(l);
    out.append("\">[");
    let n_s = u64_to_string(n as u64);
    out.append(n_s.as_str());
    out.append("]</a></sup>");
    proof {
        assert(out@ =~= anchor_html(l@, n as int, nr as int));
    }
    out
}

/// The state of the forward pass: the main stream, the stack of open
/// definition buffers, the completed definitions in source order, and the
/// numbering table.
pub struct NoteState {
    pub main: Seq<EvSpec>,
    pub stack: Seq<Seq<EvSpec>>,
    pub notes: Seq<Seq<EvSpec>>,
    pub nums: Seq<(Seq<char>, int)>,
}

/// The empty starting state.
pub open spec fn init_state() -> NoteState {
    NoteState { main: Seq::empty(), stack: Seq::empty(), notes: Seq::empty(), nums: Seq::empty() }
}

/// The numbering table after one reference to `l`, with the assigned
/// number and the updated usage count.
pub open spec fn bump(nums: Seq<(Seq<char>, int)>, l: Seq<char>) -> (Seq<(Seq<char>, int)>, int, int) {
    match find_num(nums, l) {
        Some(i) => (nums.update(i, (l, nums[i].1 + 1)), i + 1, nums[i].1 + 1),
        None => (nums.push((l, 1)), nums.len() as int + 1, 1),
    }
}

/// Appends `e` to the innermost open buffer, or to the main stream when
/// none is open.
pub open spec fn push_ev(st: NoteState, e: EvSpec) -> NoteState {
    if st.stack.len() > 0 {
        NoteState {
            main: st.main,
            stack: st.stack.update(st.stack.len() - 1, st.stack.last().push(e)),
            notes: st.notes,
            nums: st.nums,
        }
    } else {
        NoteState { main: st.main.push(e), stack: st.stack, notes: st.notes, nums: st.nums }
    }
}

/// One step of the forward pass.
pub open spec fn step(st: NoteState, e: EvSpec) -> NoteState {
    match e {
        EvSpec::FootnoteDefStart { label } => NoteState {
            main: st.main,
            stack: st.stack.push(seq![e]),
            notes: st.notes,
            nums: st.nums,
        },
        EvSpec::FootnoteDefEnd => if st.stack.len() > 0 {
            NoteState {
                main: st.main,
                stack: st.stack.drop_last(),
                notes: st.notes.push(st.stack.last().push(e)),
                nums: st.nums,
            }
        } else {
            push_ev(st, e)
        },
        EvSpec::FootnoteRef { label } => {
            let b = bump(st.nums, label);
            let st2 = NoteState { main: st.main, stack: st.stack, notes: st.notes, nums: b.0 };
            push_ev(st2, EvSpec::Html { text: anchor_html(label, b.1, b.2) })
        },
        _ => push_ev(st, e),
    }
}

/// The state after the first `i` events.
pub open spec fn run(events: Seq<EvSpec>, i: int) -> NoteState
    decreases i,
{
    if i <= 0 {
        init_state()
    } else {
        step(run(events, i - 1), events[i - 1])
    }
}

/// The label a completed definition buffer opens with, if any.
pub open spec fn note_label(buf: Seq<EvSpec>) -> Option<Seq<char>> {
    if buf.len() > 0 {
        match buf[0] {
            EvSpec::FootnoteDefStart { label } => Some(label),
            _ => None,
        }
    } else {
        None
    }
}

/// The buffers labelled `l`, in source order.
pub open spec fn notes_with(notes: Seq<Seq<EvSpec>>, l: Seq<char>) -> Seq<Seq<EvSpec>>
    decreases notes.len(),
{
    if notes.len() == 0 {
        Seq::empty()
    } else if note_label(notes.last()) == Some(l) {
        notes_with(notes.drop_last(), l).push(notes.last())
    } else {
        notes_with(notes.drop_last(), l)
    }
}

/// The buffers not labelled `l`, in source order.
pub open spec fn notes_without(notes: Seq<Seq<EvSpec>>, l: Seq<char>) -> Seq<Seq<EvSpec>>
    decreases notes.len(),
{
    if notes.len() == 0 {
        Seq::empty()
    } else if note_label(notes.last()) == Some(l) {
        notes_without(notes.drop_last(), l)
    } else {
        notes_without(notes.drop_last(), l).push(notes.last())
    }
}

proof fn lemma_notes_with_after_without(notes: Seq<Seq<EvSpec>>, l: Seq<char>, l2: Seq<char>)
    requires
        l != l2,
    ensures
        notes_with(notes_without(notes, l), l2) == notes_with(notes, l2),
    decreases notes.len(),
{
    if notes.len() > 0 {
        lemma_notes_with_after_without(notes.drop_last(), l, l2);
        if note_label(notes.last()) == Some(l) {
        } else {
            let w = notes_without(notes.drop_last(), l);
            assert(notes_without(notes, l) == w.push(notes.last()));
            assert(w.push(notes.last()).drop_last() =~= w);
        }
    }
}

/// The referenced definitions in first-use order: for each label of the
/// numbering table, its buffers in source order. Buffers whose label was
/// never referenced appear under no number and are dropped.
pub open spec fn select_from(
    notes: Seq<Seq<EvSpec>>,
    nums: Seq<(Seq<char>, int)>,
    k: int,
) -> Seq<Seq<EvSpec>>
    decreases nums.len() - k,
{
    if k < 0 || k >= nums.len() {
        Seq::empty()
    } else {
        notes_with(notes, nums[k].0) + select_from(notes, nums, k + 1)
    }
}

/// The list-item opener for footnote `l`.
pub open spec fn li_open(l: Seq<char>) -> Seq<char> {
    "<li id=\"fn-"@ + l + "\">"@
}

fn build_li_open(l: &str) -> (r: String)
    ensures
        r@ == li_open(l@),
{
    let mut out = String::from_str("<li id=\"fn-");
    out.append(l);
    out.append("\">");
    proof {
        assert(out@ =~= li_open(l@));
    }
    out
}

/// The back-reference link for the `u`-th use of footnote `l`: a return
/// glyph, suffixed with the use number from the second use on.
pub open spec fn one_backref(l: Seq<char>, u: int) -> Seq<char> {
    " <a href=\"#fr-"@ + l + "-"@ + dec_digits(u as nat) + "\">\u{21a9}"@ + (if u == 1 {
        Seq::<char>::empty()
    } else {
        dec_digits(u as nat)
    }) + "</a>"@
}

/// All back-reference links for `count` uses of `l`, in use order.
pub open spec fn backrefs(l: Seq<char>, count: int) -> Seq<char>
    decreases count,
{
    if count <= 0 {
        Seq::empty()
    } else {
        backrefs(l, count - 1) + one_backref(l, count)
    }
}

fn build_one_backref(l: &str, u: usize) -> (r: String)
    ensures
        r@ == one_backref(l@, u as int),
{
    let mut out = String::from_str(" <a href=\"#fr-");
    out.append(l);
    out.append("-");
    let u_s = u64_to_string(u as u64);
    out.append(u_s.as_str());
    out.append("\">\u{21a9}");
    if u != 1 {
        out.append(u_s.as_str());
    }
    out.append("</a>");
    proof {
        assert(out@ =~= one_backref(l@, u as int));
    }
    out
}

fn build_backrefs(l: &str, count: usize) -> (r: String)
    ensures
        r@ == backrefs(l@, count as int),
{
    let mut out = String::new();
    let mut u: usize = 0;
    while u < count
        invariant
            u <= count,
            out@ == backrefs(l@, u as int),
        decreases count - u,
    {
        u = u + 1;
        let one = build_one_backref(l, u);
        out.append(one.as_str());
    }
    out
}

/// The rendering of one definition buffer from position `i` on, given the
/// label currently open and whether back-references were already written:
/// the opener becomes a list item, back-references attach to the final
/// paragraph end when it directly precedes the definition end, and to the
/// definition end otherwise.
pub open spec fn render_note_from(
    buf: Seq<EvSpec>,
    nums: Seq<(Seq<char>, int)>,
    i: int,
    label: Seq<char>,
    written: bool,
) -> Seq<EvSpec>
    decreases buf.len() - i,
{
    if i < 0 || i >= buf.len() {
        Seq::empty()
    } else {
        match buf[i] {
            EvSpec::FootnoteDefStart { label: l2 } => seq![EvSpec::Html { text: li_open(l2) }]
                + render_note_from(buf, nums, i + 1, l2, false),
            EvSpec::FootnoteDefEnd => if !written && i >= buf.len() - 2 {
                seq![
                    EvSpec::Html { text: backrefs(label, count_of(nums, label)) + "</li>\n"@ },
                ] + render_note_from(buf, nums, i + 1, label, true)
            } else {
                seq![EvSpec::Html { text: "</li>\n"@ }] + render_note_from(
                    buf,
                    nums,
                    i + 1,
                    label,
                    written,
                )
            },
            EvSpec::ParagraphEnd => if !written && i >= buf.len() - 2 {
                seq![
                    EvSpec::Html { text: backrefs(label, count_of(nums, label)) + "</p>\n"@ },
                ] + render_note_from(buf, nums, i + 1, label, true)
            } else {
                seq![buf[i]] + render_note_from(buf, nums, i + 1, label, written)
            },
            _ => seq![buf[i]] + render_note_from(buf, nums, i + 1, label, written),
        }
    }
}

/// The rendering of one whole buffer.
pub open spec fn render_note(buf: Seq<EvSpec>, nums: Seq<(Seq<char>, int)>) -> Seq<EvSpec> {
    render_note_from(buf, nums, 0, Seq::empty(), false)
}

/// The renderings of the selected buffers from position `k` on.
pub open spec fn render_notes_from(
    sel: Seq<Seq<EvSpec>>,
    nums: Seq<(Seq<char>, int)>,
    k: int,
) -> Seq<EvSpec>
    decreases sel.len() - k,
{
    if k < 0 || k >= sel.len() {
        Seq::empty()
    } else {
        render_note(sel[k], nums) + render_notes_from(sel, nums, k + 1)
    }
}

/// The whole transformation: the forward pass's main stream and, when any
/// referenced definition survives, a thematic break, the list opener and
/// the rendered definitions in first-use order.
pub open spec fn bottom_spec(events: Seq<EvSpec>) -> Seq<EvSpec> {
    let st = run(events, events.len() as int);
    let sel = select_from(st.notes, st.nums, 0);
    if sel.len() > 0 {
        st.main + seq![
            EvSpec::Rule,
            EvSpec::Html { text: "<ol class=\"footnotes-list\">"@ },
        ] + render_notes_from(sel, st.nums, 0)
    } else {
        st.main
    }
}

/// The numbering table holds each label at most once.
pub open spec fn nums_distinct(s: Seq<(Seq<char>, int)>) -> bool {
    forall|a: int, b: int| 0 <= a < b < s.len() ==> s[a].0 != s[b].0
}

/// The forward pass never records a label twice.
pub proof fn lemma_run_nums_distinct(events: Seq<EvSpec>, i: int)
    ensures
        nums_distinct(run(events, i).nums),
    decreases i,
{
    if i > 0 {
        lemma_run_nums_distinct(events, i - 1);
        let pre = run(events, i - 1).nums;
        match events[i - 1] {
            EvSpec::FootnoteRef { label } => {
                lemma_find_num_props(pre, label);
                match find_num(pre, label) {
                    Some(ix) => {
                        let post = pre.update(ix, (label, pre[ix].1 + 1));
                        assert(run(events, i).nums == post);
                        assert(forall|a: int| 0 <= a < post.len() ==> post[a].0 == pre[a].0);
                    },
                    None => {},
                }
            },
            _ => {},
        }
    }
}

/// The distinct labels referenced among the first `i` events, in order of
/// first reference.
pub open spec fn first_refs(events: Seq<EvSpec>, i: int) -> Seq<Seq<char>>
    decreases i,
{
    if i <= 0 {
        Seq::empty()
    } else {
        let pre = first_refs(events, i - 1);
        match events[i - 1] {
            EvSpec::FootnoteRef { label } => if pre.contains(label) {
                pre
            } else {
                pre.push(label)
            },
            _ => pre,
        }
    }
}

/// References are numbered by first-use order: after any prefix of the
/// input, the numbering table holds exactly the labels referenced so far,
/// in order of first reference — so the label first referenced as number
/// `k + 1` sits at position `k`, whatever the order of the definitions.
pub proof fn lemma_first_use_order(events: Seq<EvSpec>, i: int)
    ensures
        run(events, i).nums.len() == first_refs(events, i).len(),
        forall|k: int| 0 <= k < run(events, i).nums.len() ==> (#[trigger] run(
            events,
            i,
        ).nums[k]).0 == first_refs(events, i)[k],
    decreases i,
{
    if i > 0 {
        lemma_first_use_order(events, i - 1);
        let pre = run(events, i - 1).nums;
        let fr = first_refs(events, i - 1);
        match events[i - 1] {
            EvSpec::FootnoteRef { label } => {
                lemma_find_num_props(pre, label);
                match find_num(pre, label) {
                    Some(ix) => {
                        assert(fr[ix] == label);
                        assert(fr.contains(label));
                        let post = pre.update(ix, (label, pre[ix].1 + 1));
                        assert(forall|k: int| 0 <= k < post.len() ==> (#[trigger] post[k]).0
                            == pre[k].0);
                    },
                    None => {
                        assert(!fr.contains(label)) by {
                            if fr.contains(label) {
                                let w = choose|w: int| 0 <= w < fr.len() && fr[w] == label;
                                assert(pre[w].0 == label);
                            }
                        }
                    },
                }
            },
            _ => {},
        }
    }
}

proof fn lemma_find_num_keys_eq(s1: Seq<(Seq<char>, int)>, s2: Seq<(Seq<char>, int)>, l: Seq<char>)
    requires
        s1.len() == s2.len(),
        forall|k: int| 0 <= k < s1.len() ==> (#[trigger] s1[k]).0 == s2[k].0,
    ensures
        find_num(s1, l) == find_num(s2, l),
    decreases s1.len(),
{
    if s1.len() > 0 {
        let u1 = s1.subrange(1, s1.len() as int);
        let u2 = s2.subrange(1, s2.len() as int);
        assert(forall|k: int| 0 <= k < u1.len() ==> (#[trigger] u1[k]).0 == u2[k].0);
        lemma_find_num_keys_eq(u1, u2, l);
    }
}

/// The number of references to `l` among the first `i` events.
pub open spec fn ref_count(events: Seq<EvSpec>, i: int, l: Seq<char>) -> int
    decreases i,
{
    if i <= 0 {
        0
    } else {
        ref_count(events, i - 1, l) + if events[i - 1] == (EvSpec::FootnoteRef { label: l }) {
            1int
        } else {
            0int
        }
    }
}

/// Each label's recorded usage count is exactly its number of references:
/// this is what makes one back-reference link appear per use.
pub proof fn lemma_usage_counts(events: Seq<EvSpec>, i: int, l: Seq<char>)
    requires
        0 <= i,
    ensures
        count_of(run(events, i).nums, l) == ref_count(events, i, l),
    decreases i,
{
    if i > 0 {
        lemma_usage_counts(events, i - 1, l);
        let pre = run(events, i - 1).nums;
        match events[i - 1] {
            EvSpec::FootnoteRef { label } => {
                lemma_find_num_props(pre, label);
                match find_num(pre, label) {
                    Some(ix) => {
                        let post = pre.update(ix, (label, pre[ix].1 + 1));
                        assert(run(events, i).nums == post);
                        assert(forall|k: int| 0 <= k < post.len() ==> (#[trigger] post[k]).0
                            == pre[k].0);
                        lemma_find_num_keys_eq(post, pre, l);
                        lemma_find_num_props(post, l);
                        if label == l {
                            assert(find_num(post, l) == Some(ix)) by {
                                lemma_find_num_props(pre, l);
                            }
                            assert(count_of(post, l) == pre[ix].1 + 1);
                            assert(count_of(pre, l) == pre[ix].1);
                            assert(ref_count(events, i, l) == ref_count(events, i - 1, l) + 1);
                        } else {
                            assert(events[i - 1] != (EvSpec::FootnoteRef { label: l }));
                            match find_num(pre, l) {
                                Some(il) => {
                                    assert(pre[il].0 == l);
                                    assert(il != ix);
                                    assert(post[il] == pre[il]);
                                    assert(count_of(post, l) == count_of(pre, l));
                                },
                                None => {
                                    assert(count_of(post, l) == 0 && count_of(pre, l) == 0);
                                },
                            }
                            assert(ref_count(events, i, l) == ref_count(events, i - 1, l));
                        }
                    },
                    None => {
                        let post = pre.push((label, 1));
                        assert(run(events, i).nums == post);
                        if label == l {
                            lemma_find_num_skip(post, l, pre.len() as int);
                            assert(post.subrange(pre.len() as int, post.len() as int)
                                =~= seq![(label, 1int)]);
                            assert(find_num(post, l) == Some(pre.len() as int));
                            assert(count_of(post, l) == 1);
                            assert(count_of(pre, l) == 0);
                            assert(ref_count(events, i, l) == ref_count(events, i - 1, l) + 1);
                        } else {
                            assert(events[i - 1] != (EvSpec::FootnoteRef { label: l }));
                            match find_num(pre, l) {
                                Some(il) => {
                                    lemma_find_num_props(pre, l);
                                    assert(pre[il].0 == l);
                                    assert(forall|j: int| 0 <= j < il ==> pre[j].0 != l);
                                    assert(forall|j: int|
                                        0 <= j < il ==> (#[trigger] post[j]).0 != l);
                                    lemma_find_num_skip(post, l, il);
                                    let suf = post.subrange(il, post.len() as int);
                                    assert(suf[0].0 == l);
                                    assert(find_num(post, l) == Some(il));
                                    assert(post[il] == pre[il]);
                                    assert(count_of(post, l) == count_of(pre, l));
                                },
                                None => {
                                    lemma_find_num_props(pre, l);
                                    assert(forall|j: int|
                                        0 <= j < pre.len() ==> (#[trigger] post[j]).0 != l);
                                    lemma_find_num_skip(post, l, pre.len() as int);
                                    let suf = post.subrange(pre.len() as int, post.len() as int);
                                    assert(suf =~= seq![(label, 1int)]);
                                    assert(suf[0].0 == label);
                                    assert(suf.subrange(1, suf.len() as int) =~= Seq::<(
                                        Seq<char>,
                                        int,
                                    )>::empty());
                                    assert(find_num(suf.subrange(1, suf.len() as int), l)
                                        is None);
                                    assert(find_num(suf, l) is None);
                                    assert(count_of(post, l) == 0 && count_of(pre, l) == 0);
                                },
                            }
                            assert(ref_count(events, i, l) == ref_count(events, i - 1, l));
                        }
                    },
                }
            },
            _ => {
                assert(run(events, i).nums == push_ev(run(events, i - 1), events[i - 1]).nums);
                assert(events[i - 1] != (EvSpec::FootnoteRef { label: l }));
                assert(ref_count(events, i, l) == ref_count(events, i - 1, l));
            },
        }
    }
}

proof fn lemma_find_num_none_iff(s: Seq<(Seq<char>, int)>, l: Seq<char>)
    ensures
        (find_num(s, l) is None) <==> (forall|j: int| 0 <= j < s.len() ==> s[j].0 != l),
{
    lemma_find_num_props(s, l);
}

/// The forward pass records only referenced labels: without a reference
/// to `l`, the numbering table never holds `l`.
proof fn lemma_run_no_ref(events: Seq<EvSpec>, i: int, l: Seq<char>)
    requires
        0 <= i <= events.len(),
        forall|j: int| 0 <= j < i ==> events[j] != (EvSpec::FootnoteRef { label: l }),
    ensures
        forall|j: int|
            0 <= j < run(events, i).nums.len() ==> (#[trigger] run(events, i).nums[j]).0 != l,
    decreases i,
{
    if i > 0 {
        lemma_run_no_ref(events, i - 1, l);
        let pre = run(events, i - 1).nums;
        match events[i - 1] {
            EvSpec::FootnoteRef { label } => {
                assert(label != l);
                match find_num(pre, label) {
                    Some(ix) => {
                        lemma_find_num_props(pre, label);
                        let post = pre.update(ix, (label, pre[ix].1 + 1));
                        assert(forall|j: int|
                            0 <= j < post.len() ==> (#[trigger] post[j]).0 != l);
                    },
                    None => {},
                }
            },
            _ => {},
        }
    }
}

/// Every buffer that [`notes_with`] picks carries the label asked for.
proof fn lemma_notes_with_labeled(notes: Seq<Seq<EvSpec>>, l0: Seq<char>)
    ensures
        forall|t: int| 0 <= t < notes_with(notes, l0).len() ==> note_label(
            #[trigger] notes_with(notes, l0)[t],
        ) == Some(l0),
    decreases notes.len(),
{
    if notes.len() > 0 {
        lemma_notes_with_labeled(notes.drop_last(), l0);
    }
}

/// Every selected buffer carries some label of the numbering table.
proof fn lemma_select_labels(
    notes: Seq<Seq<EvSpec>>,
    nums: Seq<(Seq<char>, int)>,
    k: int,
    l: Seq<char>,
)
    requires
        forall|j: int| 0 <= j < nums.len() ==> (#[trigger] nums[j]).0 != l,
    ensures
        forall|t: int| 0 <= t < select_from(notes, nums, k).len() ==> note_label(
            #[trigger] select_from(notes, nums, k)[t],
        ) != Some(l),
    decreases nums.len() - k,
{
    if 0 <= k < nums.len() {
        lemma_notes_with_labeled(notes, nums[k].0);
        lemma_select_labels(notes, nums, k + 1, l);
        let sel = select_from(notes, nums, k);
        let head = notes_with(notes, nums[k].0);
        assert forall|t: int| 0 <= t < sel.len() implies note_label(#[trigger] sel[t]) != Some(
            l,
        ) by {
            if t < head.len() {
                assert(sel[t] == head[t]);
                assert(note_label(head[t]) == Some(nums[k].0));
            } else {
                assert(sel[t] == select_from(notes, nums, k + 1)[t - head.len()]);
            }
        }
    }
}

/// A definition whose label is never referenced takes no numbering slot
/// and contributes nothing to the rendered list: the table has no entry
/// for the label, and no selected definition carries it.
pub proof fn lemma_unreferenced_definition_dropped(events: Seq<EvSpec>, l: Seq<char>)
    requires
        forall|j: int| 0 <= j < events.len() ==> events[j] != (EvSpec::FootnoteRef { label: l }),
    ensures
        find_num(run(events, events.len() as int).nums, l) is None,
        forall|t: int|
            0 <= t < select_from(
                run(events, events.len() as int).notes,
                run(events, events.len() as int).nums,
                0,
            ).len() ==> note_label(
                #[trigger] select_from(
                    run(events, events.len() as int).notes,
                    run(events, events.len() as int).nums,
                    0,
                )[t],
            ) != Some(l),
{
    let st = run(events, events.len() as int);
    lemma_run_no_ref(events, events.len() as int, l);
    lemma_find_num_none_iff(st.nums, l);
    lemma_select_labels(st.notes, st.nums, 0, l);
}

/// Appends `e` to the innermost open buffer, or to `main` when none is
/// open, as [`push_ev`] describes.
fn deliver(main: &mut Vec<MdEvent>, stack: &mut Vec<Vec<MdEvent>>, e: MdEvent)
    ensures
        old(stack)@.len() == 0 ==> final(main)@ == old(main)@.push(e) && final(stack)@ == old(
            stack,
        )@,
        old(stack)@.len() > 0 ==> final(main)@ == old(main)@ && bufs_view(final(stack)@)
            == bufs_view(old(stack)@).update(
            old(stack)@.len() - 1,
            bufs_view(old(stack)@).last().push(e@),
        ),
{
    if stack.len() > 0 {
        let mut top = match stack.pop() {
            Some(t) => t,
            None => {
                return ;
            },
        };
        let ghost top0 = top@;
        top.push(e);
        proof {
            assert(evs(top@) =~= evs(top0).push(e@));
        }
        stack.push(top);
        proof {
            assert(bufs_view(stack@) =~= bufs_view(old(stack)@).update(
                old(stack)@.len() - 1,
                bufs_view(old(stack)@).last().push(e@),
            ));
        }
    } else {
        main.push(e);
    }
}

/// The forward pass: main stream, completed definition buffers and the
/// numbering table, as [`run`] describes. Buffers still open at the end
/// of the input are discarded.
#[verifier::rlimit(100)]
fn pass_events(events: Vec<MdEvent>) -> (r: (Vec<MdEvent>, Vec<Vec<MdEvent>>, Vec<(
    String,
    usize,
)>))
    ensures
        ({
            let st = run(evs(events@), evs(events@).len() as int);
            evs(r.0@) == st.main && bufs_view(r.1@) == st.notes && nums_view(r.2@) == st.nums
        }),
{
    let ghost orig = evs(events@);
    let mut input = events;
    let total = input.len();
    proof {
        assert(orig.len() == total as int);
    }
    let mut main: Vec<MdEvent> = Vec::new();
    let mut stack: Vec<Vec<MdEvent>> = Vec::new();
    let mut notes: Vec<Vec<MdEvent>> = Vec::new();
    let mut nums: Vec<(String, usize)> = Vec::new();
    let ghost i: int = 0;
    proof {
        assert(evs(main@) =~= run(orig, 0).main);
        assert(bufs_view(stack@) =~= run(orig, 0).stack);
        assert(bufs_view(notes@) =~= run(orig, 0).notes);
        assert(nums_view(nums@) =~= run(orig, 0).nums);
    }
    while input.len() > 0
        invariant
            0 <= i <= orig.len(),
            orig.len() <= usize::MAX,
            input@.len() == orig.len() - i,
            forall|j: int| 0 <= j < input@.len() ==> #[trigger] input@[j]@ == orig[i + j],
            evs(main@) == run(orig, i).main,
            bufs_view(stack@) == run(orig, i).stack,
            bufs_view(notes@) == run(orig, i).notes,
            nums_view(nums@) == run(orig, i).nums,
            nums@.len() <= i,
            forall|k: int| 0 <= k < nums@.len() ==> 0 <= #[trigger] nums_view(nums@)[k].1 <= i,
        decreases input@.len(),
    {
        let ghost pre = run(orig, i);
        let e = input.remove(0);
        proof {
            assert(e@ == orig[i]);
        }
        match e {
            MdEvent::FootnoteDefStart { label } => {
                let mut buf: Vec<MdEvent> = Vec::new();
                buf.push(MdEvent::FootnoteDefStart { label });
                proof {
                    assert(evs(buf@) =~= seq![orig[i]]);
                }
                stack.push(buf);
                proof {
                    assert(bufs_view(stack@) =~= pre.stack.push(seq![orig[i]]));
                }
            },
            MdEvent::FootnoteDefEnd => {
                if stack.len() > 0 {
                    let mut buf = match stack.pop() {
                        Some(b) => b,
                        None => {
                            return (main, notes, nums);
                        },
                    };
                    let ghost buf0 = buf@;
                    buf.push(MdEvent::FootnoteDefEnd);
                    proof {
                        assert(evs(buf@) =~= evs(buf0).push(EvSpec::FootnoteDefEnd));
                        assert(evs(buf0) == pre.stack.last());
                    }
                    notes.push(buf);
                    proof {
                        assert(bufs_view(notes@) =~= pre.notes.push(
                            pre.stack.last().push(EvSpec::FootnoteDefEnd),
                        ));
                        assert(bufs_view(stack@) =~= pre.stack.drop_last());
                    }
                } else {
                    main.push(MdEvent::FootnoteDefEnd);
                }
            },
            MdEvent::FootnoteRef { label } => {
                proof {
                    lemma_find_num_props(nums_view(nums@), label@);
                }
                match lookup_num(&nums, label.as_str()) {
                    Some(ix) => {
                        proof {
                            assert(nums_view(nums@)[ix as int].1 <= i);
                            assert(nums@[ix as int].1 as int == nums_view(nums@)[ix as int].1);
                        }
                        let entry = nums.remove(ix);
                        let ghost nv0 = nums_view(nums@);
                        let nr = entry.1 + 1;
                        nums.insert(ix, (entry.0, nr));
                        proof {
                            assert(nums_view(nums@) =~= pre.nums.update(
                                ix as int,
                                (label@, pre.nums[ix as int].1 + 1),
                            ));
                        }
                        let html = build_anchor(label.as_str(), ix + 1, nr);
                        deliver(&mut main, &mut stack, MdEvent::Html { text: html });
                    },
                    None => {
                        let ghost lab = label@;
                        let n = nums.len() + 1;
                        let html = build_anchor(label.as_str(), n, 1);
                        nums.push((label, 1));
                        proof {
                            assert(nums_view(nums@) =~= pre.nums.push((lab, 1int)));
                        }
                        deliver(&mut main, &mut stack, MdEvent::Html { text: html });
                    },
                }
            },
            other => {
                deliver(&mut main, &mut stack, other);
            },
        }
        proof {
            i = i + 1;
            assert(run(orig, i) == step(pre, orig[i - 1]));
            assert(evs(main@) =~= run(orig, i).main);
            assert(bufs_view(stack@) =~= run(orig, i).stack);
            assert(bufs_view(notes@) =~= run(orig, i).notes);
            assert(nums_view(nums@) =~= run(orig, i).nums);
        }
    }
    (main, notes, nums)
}

/// Picks the referenced definitions out of `notes`, in first-use order,
/// as [`select_from`] describes.
#[verifier::rlimit(100)]
fn select_notes(notes: Vec<Vec<MdEvent>>, nums: &Vec<(String, usize)>) -> (r: Vec<Vec<MdEvent>>)
    requires
        nums_distinct(nums_view(nums@)),
    ensures
        bufs_view(r@) == select_from(bufs_view(notes@), nums_view(nums@), 0),
{
    let ghost orig_notes = bufs_view(notes@);
    let ghost nv = nums_view(nums@);
    let mut pool = notes;
    let mut selected: Vec<Vec<MdEvent>> = Vec::new();
    let mut k: usize = 0;
    proof {
        assert(bufs_view(selected@) =~= Seq::<Seq<EvSpec>>::empty());
        assert(bufs_view(pool@) == orig_notes);
    }
    while k < nums.len()
        invariant
            k <= nums@.len(),
            nv == nums_view(nums@),
            nums_distinct(nv),
            select_from(orig_notes, nv, 0) == bufs_view(selected@) + select_from(
                orig_notes,
                nv,
                k as int,
            ),
            forall|k2: int| k <= k2 < nv.len() ==> #[trigger] notes_with(
                bufs_view(pool@),
                nv[k2].0,
            ) == notes_with(orig_notes, nv[k2].0),
        decreases nums@.len() - k,
    {
        let lbl = nums[k].0.clone();
        proof {
            assert(lbl@ == nv[k as int].0);
        }
        let ghost pass_orig = bufs_view(pool@);
        let ghost sel0 = bufs_view(selected@);
        let mut rest: Vec<Vec<MdEvent>> = Vec::new();
        let ghost j: int = 0;
        proof {
            assert(pass_orig.subrange(0, 0) =~= Seq::<Seq<EvSpec>>::empty());
            assert(bufs_view(rest@) =~= Seq::<Seq<EvSpec>>::empty());
            assert(sel0 + notes_with(pass_orig.subrange(0, 0), lbl@) =~= sel0);
        }
        while pool.len() > 0
            invariant
                0 <= j <= pass_orig.len(),
                pool@.len() == pass_orig.len() - j,
                forall|t: int| 0 <= t < pool@.len() ==> evs(#[trigger] pool@[t]@)
                    == pass_orig[j + t],
                bufs_view(selected@) == sel0 + notes_with(pass_orig.subrange(0, j), lbl@),
                bufs_view(rest@) == notes_without(pass_orig.subrange(0, j), lbl@),
            decreases pool@.len(),
        {
            let buf = pool.remove(0);
            let is_match = if buf.len() > 0 {
                match &buf[0] {
                    MdEvent::FootnoteDefStart { label } => str_eq(label.as_str(), lbl.as_str()),
                    _ => false,
                }
            } else {
                false
            };
            proof {
                assert(evs(buf@) == pass_orig[j]);
                if buf@.len() > 0 {
                    assert(evs(buf@)[0] == buf@[0]@);
                }
                assert(is_match == (note_label(pass_orig[j]) == Some(lbl@)));
                let cur = pass_orig.subrange(0, j + 1);
                assert(cur.drop_last() =~= pass_orig.subrange(0, j));
                assert(cur.last() == pass_orig[j]);
            }
            if is_match {
                let ghost sel_pre = bufs_view(selected@);
                selected.push(buf);
                proof {
                    let cur = pass_orig.subrange(0, j + 1);
                    assert(cur.len() > 0 && note_label(cur.last()) == Some(lbl@));
                    assert(cur.drop_last() =~= pass_orig.subrange(0, j));
                    assert(notes_with(cur, lbl@) == notes_with(pass_orig.subrange(0, j), lbl@).push(
                        pass_orig[j],
                    ));
                    assert(bufs_view(selected@) =~= sel_pre.push(pass_orig[j]));
                    assert(sel_pre.push(pass_orig[j]) =~= sel0 + notes_with(cur, lbl@));
                }
            } else {
                let ghost rest_pre = bufs_view(rest@);
                rest.push(buf);
                proof {
                    let cur = pass_orig.subrange(0, j + 1);
                    assert(cur.len() > 0 && note_label(cur.last()) != Some(lbl@));
                    assert(cur.drop_last() =~= pass_orig.subrange(0, j));
                    assert(notes_without(cur, lbl@) == notes_without(
                        pass_orig.subrange(0, j),
                        lbl@,
                    ).push(pass_orig[j]));
                    assert(bufs_view(rest@) =~= rest_pre.push(pass_orig[j]));
                }
            }
            proof {
                j = j + 1;
            }
        }
        pool = rest;
        proof {
            assert(pass_orig.subrange(0, pass_orig.len() as int) =~= pass_orig);
            assert(select_from(orig_notes, nv, 0) =~= bufs_view(selected@) + select_from(
                orig_notes,
                nv,
                k + 1,
            ));
            assert forall|k2: int| k + 1 <= k2 < nv.len() implies #[trigger] notes_with(
                bufs_view(pool@),
                nv[k2].0,
            ) == notes_with(orig_notes, nv[k2].0) by {
                assert(nv[k as int].0 != nv[k2].0);
                assert(bufs_view(pool@) == notes_without(pass_orig, lbl@));
                lemma_notes_with_after_without(pass_orig, lbl@, nv[k2].0);
            }
        }
        k = k + 1;
    }
    proof {
        assert(bufs_view(selected@) =~= select_from(orig_notes, nv, 0));
    }
    selected
}

/// Renders the selected definition buffers onto the end of `main`, as
/// [`render_notes_from`] describes.
#[verifier::rlimit(100)]
fn render_selected(main: &mut Vec<MdEvent>, sel: Vec<Vec<MdEvent>>, nums: &Vec<(String, usize)>)
    ensures
        evs(final(main)@) == evs(old(main)@) + render_notes_from(
            bufs_view(sel@),
            nums_view(nums@),
            0,
        ),
{
    let ghost sv = bufs_view(sel@);
    let ghost nv = nums_view(nums@);
    let ghost base = evs(main@);
    let mut queue = sel;
    let ghost k: int = 0;
    proof {
        assert(base + render_notes_from(sv, nv, 0) =~= evs(main@) + render_notes_from(sv, nv, 0));
    }
    while queue.len() > 0
        invariant
            0 <= k <= sv.len(),
            queue@.len() == sv.len() - k,
            forall|t: int| 0 <= t < queue@.len() ==> evs(#[trigger] queue@[t]@) == sv[k + t],
            nv == nums_view(nums@),
            base + render_notes_from(sv, nv, 0) == evs(main@) + render_notes_from(sv, nv, k),
        decreases queue@.len(),
    {
        let buf = queue.remove(0);
        let ghost bm = evs(buf@);
        proof {
            assert(bm == sv[k]);
        }
        let ghost note_base = evs(main@);
        let blen = buf.len();
        let mut cur = buf;
        let mut cur_label = String::new();
        let mut written = false;
        let ghost ii: int = 0;
        proof {
            assert(cur_label@ =~= Seq::<char>::empty());
        }
        while cur.len() > 0
            invariant
                0 <= ii <= bm.len(),
                cur@.len() == bm.len() - ii,
                blen as int == bm.len(),
                forall|t: int| 0 <= t < cur@.len() ==> #[trigger] cur@[t]@ == bm[ii + t],
                nv == nums_view(nums@),
                note_base + render_note_from(bm, nv, 0, Seq::empty(), false) == evs(main@)
                    + render_note_from(bm, nv, ii, cur_label@, written),
            decreases cur@.len(),
        {
            let pos = blen - cur.len();
            let e = cur.remove(0);
            proof {
                assert(e@ == bm[ii]);
                assert(pos as int == ii);
            }
            let ghost main0 = evs(main@);
            let ghost label0 = cur_label@;
            let ghost written0 = written;
            match e {
                MdEvent::FootnoteDefStart { label } => {
                    let h = build_li_open(label.as_str());
                    main.push(MdEvent::Html { text: h });
                    cur_label = label;
                    written = false;
                },
                MdEvent::FootnoteDefEnd => {
                    if !written && blen - pos <= 2 {
                        let c = match lookup_num(nums, cur_label.as_str()) {
                            Some(ixx) => nums[ixx].1,
                            None => 0,
                        };
                        proof {
                            assert(c as int == count_of(nv, cur_label@));
                        }
                        let mut h = build_backrefs(cur_label.as_str(), c);
                        h.append("</li>\n");
                        main.push(MdEvent::Html { text: h });
                        written = true;
                    } else {
                        main.push(MdEvent::Html { text: String::from_str("</li>\n") });
                    }
                },
                MdEvent::ParagraphEnd => {
                    if !written && blen - pos <= 2 {
                        let c = match lookup_num(nums, cur_label.as_str()) {
                            Some(ixx) => nums[ixx].1,
                            None => 0,
                        };
                        proof {
                            assert(c as int == count_of(nv, cur_label@));
                        }
                        let mut h = build_backrefs(cur_label.as_str(), c);
                        h.append("</p>\n");
                        main.push(MdEvent::Html { text: h });
                        written = true;
                    } else {
                        main.push(MdEvent::ParagraphEnd);
                    }
                },
                other => {
                    main.push(other);
                },
            }
            proof {
                ii = ii + 1;
                assert(evs(main@) =~= main0.push(evs(main@).last()));
                assert(render_note_from(bm, nv, ii - 1, label0, written0) == seq![
                    evs(main@).last(),
                ] + render_note_from(bm, nv, ii, cur_label@, written));
                assert(note_base + render_note_from(bm, nv, 0, Seq::empty(), false) =~= evs(main@)
                    + render_note_from(bm, nv, ii, cur_label@, written));
            }
        }
        proof {
            k = k + 1;
            assert(render_note_from(bm, nv, bm.len() as int, cur_label@, written)
                =~= Seq::<EvSpec>::empty());
            assert(evs(main@) =~= note_base + render_note(bm, nv));
            assert(render_notes_from(sv, nv, k - 1) == render_note(sv[k - 1], nv)
                + render_notes_from(sv, nv, k));
            assert(base + render_notes_from(sv, nv, 0) =~= evs(main@) + render_notes_from(
                sv,
                nv,
                k,
            ));
        }
    }
    proof {
        assert(render_notes_from(sv, nv, sv.len() as int) =~= Seq::<EvSpec>::empty());
        assert(evs(main@) =~= base + render_notes_from(sv, nv, 0));
    }
}

/// Relocates footnotes to the end of the event sequence, as
/// [`bottom_spec`] describes: definitions leave their inline position,
/// references become numbered anchors, and the referenced definitions are
/// appended once, in first-use order, with back-reference links.
pub fn bottom_footnotes(events: Vec<MdEvent>) -> (r: Vec<MdEvent>)
    ensures
        evs(r@) == bottom_spec(evs(events@)),
{
    let ghost orig = evs(events@);
    let parts = pass_events(events);
    let mut main = parts.0;
    let notes = parts.1;
    let nums = parts.2;
    proof {
        lemma_run_nums_distinct(orig, orig.len() as int);
    }
    let selected = select_notes(notes, &nums);
    if selected.len() > 0 {
        main.push(MdEvent::Rule);
        main.push(MdEvent::Html { text: String::from_str("<ol class=\"footnotes-list\">") });
        proof {
            assert(evs(main@) =~= run(orig, orig.len() as int).main + seq![
                EvSpec::Rule,
                EvSpec::Html { text: "<ol class=\"footnotes-list\">"@ },
            ]);
        }
        render_selected(&mut main, selected, &nums);
        proof {
            assert(evs(main@) =~= bottom_spec(orig));
        }
        main
    } else {
        proof {
            assert(evs(main@) =~= bottom_spec(orig));
        }
        main
    }
}

} // verus!
