//! The Content Index: groups public content by layout and by tag, sorts
//! each group by output path and timestamp, and buckets tag frequencies
//! into cloud weights.

use vstd::prelude::*;
use vstd::string::*;
use crate::content::{ContentItem, ContentStatus, str_eq};
use crate::text::pieces_view;

verus! {

/// The models of a vector of named index groups.
pub open spec fn groups_view(s: Seq<(String, Vec<usize>)>) -> Seq<(Seq<char>, Seq<usize>)> {
    s.map_values(|p: (String, Vec<usize>)| (p.0@, p.1@))
}

/// The index of the group named `key`, if any.
pub open spec fn find_group(s: Seq<(Seq<char>, Seq<usize>)>, key: Seq<char>) -> Option<int>
    decreases s.len(),
{
    if s.len() == 0 {
        None
    } else if s[0].0 == key {
        Some(0int)
    } else {
        match find_group(s.subrange(1, s.len() as int), key) {
            Some(i) => Some(i + 1),
            None => None,
        }
    }
}

proof fn lemma_find_group_props(s: Seq<(Seq<char>, Seq<usize>)>, key: Seq<char>)
    ensures
        match find_group(s, key) {
            Some(i) => 0 <= i < s.len() && s[i].0 == key,
            None => true,
        },
    decreases s.len(),
{
    if s.len() > 0 && s[0].0 != key {
        let u = s.subrange(1, s.len() as int);
        lemma_find_group_props(u, key);
        match find_group(u, key) {
            Some(i) => {
                assert(s[i + 1].0 == u[i].0);
            },
            None => {},
        }
    }
}

proof fn lemma_find_group_skip(s: Seq<(Seq<char>, Seq<usize>)>, key: Seq<char>, i: int)
    requires
        0 <= i <= s.len(),
        forall|j: int| 0 <= j < i ==> s[j].0 != key,
    ensures
        find_group(s, key) == match find_group(s.subrange(i, s.len() as int), key) {
            Some(k) => Some(k + i),
            None => None::<int>,
        },
    decreases i,
{
    if i == 0 {
        assert(s.subrange(0, s.len() as int) =~= s);
        match find_group(s, key) {
            Some(k) => {
                assert(k + 0 == k);
            },
            None => {},
        }
    } else {
        let u = s.subrange(1, s.len() as int);
        lemma_find_group_skip(u, key, i - 1);
        assert(u.subrange(i - 1, u.len() as int) =~= s.subrange(i, s.len() as int));
    }
}

/// Looks a key up among the exec groups, as [`find_group`] describes.
fn lookup_group(groups: &Vec<(String, Vec<usize>)>, key: &str) -> (r: Option<usize>)
    ensures
        match r {
            Some(i) => i < groups@.len() && find_group(groups_view(groups@), key@) == Some(
                i as int,
            ),
            None => find_group(groups_view(groups@), key@) is None,
        },
{
    let mut i: usize = 0;
    while i < groups.len()
        invariant
            i <= groups@.len(),
            forall|j: int| 0 <= j < i ==> #[trigger] groups_view(groups@)[j].0 != key@,
        decreases groups@.len() - i,
    {
        if str_eq(groups[i].0.as_str(), key) {
            proof {
                lemma_find_group_skip(groups_view(groups@), key@, i as int);
                let suf = groups_view(groups@).subrange(i as int, groups@.len() as int);
                assert(suf[0].0 == key@);
            }
            return Some(i);
        }
        i = i + 1;
    }
    proof {
        lemma_find_group_skip(groups_view(groups@), key@, groups@.len() as int);
    }
    None
}

/// One item index appended to its group, the group created at the end on
/// first sight of the key.
pub open spec fn add_to_group(
    groups: Seq<(Seq<char>, Seq<usize>)>,
    key: Seq<char>,
    idx: usize,
) -> Seq<(Seq<char>, Seq<usize>)> {
    match find_group(groups, key) {
        Some(g) => groups.update(g, (key, groups[g].1.push(idx))),
        None => groups.push((key, seq![idx])),
    }
}

/// The grouping key of an item for the layout index: its `layout` value,
/// for public items that have one.
pub open spec fn layout_key(item: ContentItem) -> Option<Seq<char>> {
    if item.status == ContentStatus::Public && item.metadata@.contains_key("layout"@) {
        Some(item.metadata@["layout"@])
    } else {
        None
    }
}

/// The layout grouping of the first `i` items, in first-sight key order.
pub open spec fn layout_groups_rec(items: Seq<ContentItem>, i: int) -> Seq<(Seq<char>, Seq<usize>)>
    decreases i,
{
    if i <= 0 {
        Seq::empty()
    } else {
        let pre = layout_groups_rec(items, i - 1);
        match layout_key(items[i - 1]) {
            Some(k) => add_to_group(pre, k, (i - 1) as usize),
            None => pre,
        }
    }
}

/// The tag list of an item as far as the tag index is concerned: its tags
/// when public, nothing otherwise.
pub open spec fn tag_keys(item: ContentItem) -> Seq<Seq<char>> {
    if item.status == ContentStatus::Public {
        pieces_view(item.tags@)
    } else {
        Seq::empty()
    }
}

/// `idx` appended under every tag of `tags` from position `t` on.
pub open spec fn add_tags(
    groups: Seq<(Seq<char>, Seq<usize>)>,
    tags: Seq<Seq<char>>,
    idx: usize,
    t: int,
) -> Seq<(Seq<char>, Seq<usize>)>
    decreases tags.len() - t,
{
    if t < 0 || t >= tags.len() {
        groups
    } else {
        add_tags(add_to_group(groups, tags[t], idx), tags, idx, t + 1)
    }
}

/// The tag grouping of the first `i` items.
pub open spec fn tag_groups_rec(items: Seq<ContentItem>, i: int) -> Seq<(Seq<char>, Seq<usize>)>
    decreases i,
{
    if i <= 0 {
        Seq::empty()
    } else {
        add_tags(tag_groups_rec(items, i - 1), tag_keys(items[i - 1]), (i - 1) as usize, 0)
    }
}

/// Groups the public items by their `layout` value, as
/// [`layout_groups_rec`] describes: draft and hidden content appears in
/// no group.
pub fn layout_groups(items: &Vec<ContentItem>) -> (r: Vec<(String, Vec<usize>)>)
    ensures
        groups_view(r@) == layout_groups_rec(items@, items@.len() as int),
{
    let mut groups: Vec<(String, Vec<usize>)> = Vec::new();
    let mut i: usize = 0;
    proof {
        assert(groups_view(groups@) =~= layout_groups_rec(items@, 0));
    }
    while i < items.len()
        invariant
            i <= items@.len(),
            groups_view(groups@) == layout_groups_rec(items@, i as int),
        decreases items@.len() - i,
    {
        let item = &items[i];
        let is_public = match item.status {
            ContentStatus::Public => true,
            _ => false,
        };
        if is_public {
            match item.metadata.get("layout") {
                Some(l) => {
                    push_group(&mut groups, l, i);
                    proof {
                        assert(groups_view(groups@) =~= layout_groups_rec(items@, i + 1));
                    }
                },
                None => {
                    proof {
                        assert(groups_view(groups@) =~= layout_groups_rec(items@, i + 1));
                    }
                },
            }
        } else {
            proof {
                assert(groups_view(groups@) =~= layout_groups_rec(items@, i + 1));
            }
        }
        i = i + 1;
    }
    groups
}

/// Appends `idx` to the group named by `key`, as [`add_to_group`]
/// describes.
fn push_group(groups: &mut Vec<(String, Vec<usize>)>, key: String, idx: usize)
    ensures
        groups_view(final(groups)@) == add_to_group(groups_view(old(groups)@), key@, idx),
{
    match lookup_group(groups, key.as_str()) {
        Some(g) => {
            let mut entry = groups.remove(g);
            let ghost e0 = entry.1@;
            entry.1.push(idx);
            groups.insert(g, entry);
            proof {
                let gv = groups_view(old(groups)@);
                lemma_find_group_props(gv, key@);
                assert(gv[g as int].0 == key@);
                assert(groups_view(groups@) =~= gv.update(g as int, (key@, gv[
                    g as int].1.push(idx))));
            }
        },
        None => {
            let mut v: Vec<usize> = Vec::new();
            v.push(idx);
            groups.push((key, v));
            proof {
                assert(v@ =~= seq![idx]);
                assert(groups_view(groups@) =~= groups_view(old(groups)@).push((key@, seq![idx])));
            }
        },
    }
}

/// Groups the public items by each of their tags, as [`tag_groups_rec`]
/// describes: an item appears once per occurrence of a tag in its list.
pub fn tag_groups(items: &Vec<ContentItem>) -> (r: Vec<(String, Vec<usize>)>)
    ensures
        groups_view(r@) == tag_groups_rec(items@, items@.len() as int),
{
    let mut groups: Vec<(String, Vec<usize>)> = Vec::new();
    let mut i: usize = 0;
    proof {
        assert(groups_view(groups@) =~= tag_groups_rec(items@, 0));
    }
    while i < items.len()
        invariant
            i <= items@.len(),
            groups_view(groups@) == tag_groups_rec(items@, i as int),
        decreases items@.len() - i,
    {
        let item = &items[i];
        let is_public = match item.status {
            ContentStatus::Public => true,
            _ => false,
        };
        if is_public {
            let ghost keys = tag_keys(items@[i as int]);
            let mut t: usize = 0;
            while t < item.tags.len()
                invariant
                    t <= item.tags@.len(),
                    item == items@[i as int],
                    item.status == ContentStatus::Public,
                    keys == tag_keys(items@[i as int]),
                    keys.len() == item.tags@.len(),
                    forall|j: int| 0 <= j < keys.len() ==> keys[j] == #[trigger] item.tags@[j]@,
                    add_tags(tag_groups_rec(items@, i as int), keys, i, 0) == add_tags(
                        groups_view(groups@),
                        keys,
                        i,
                        t as int,
                    ),
                decreases item.tags@.len() - t,
            {
                let tag = item.tags[t].clone();
                proof {
                    assert(tag@ == keys[t as int]);
                }
                push_group(&mut groups, tag, i);
                t = t + 1;
            }
            proof {
                assert(add_tags(groups_view(groups@), keys, i, item.tags@.len() as int)
                    == groups_view(groups@));
                assert(groups_view(groups@) =~= tag_groups_rec(items@, i + 1));
            }
        } else {
            proof {
                assert(tag_keys(items@[i as int]).len() == 0);
                assert(groups_view(groups@) =~= tag_groups_rec(items@, i + 1));
            }
        }
        i = i + 1;
    }
    groups
}

/// The sort key order of the index: output path first, lexicographically,
/// then timestamp.
pub open spec fn idx_le(items: Seq<ContentItem>, a: usize, b: usize) -> bool {
    if items[a as int].output_path@ == items[b as int].output_path@ {
        items[a as int].timestamp.spec_le(items[b as int].timestamp)
    } else {
        crate::text::lex_lt(items[a as int].output_path@, items[b as int].output_path@)
    }
}

/// Exec comparison of two item indices, as [`idx_le`] describes.
fn idx_le_exec(items: &Vec<ContentItem>, a: usize, b: usize) -> (r: bool)
    requires
        a < items@.len(),
        b < items@.len(),
    ensures
        r == idx_le(items@, a, b),
{
    let pa = items[a].output_path.as_str();
    let pb = items[b].output_path.as_str();
    if str_eq(pa, pb) {
        items[a].timestamp.le(&items[b].timestamp)
    } else {
        crate::text::str_lt(pa, pb)
    }
}

/// `x` inserted into an already sorted index list, after any equal keys:
/// the insertion step of a stable sort.
pub open spec fn insert_idx(items: Seq<ContentItem>, sorted: Seq<usize>, x: usize) -> Seq<usize>
    decreases sorted.len(),
{
    if sorted.len() == 0 {
        seq![x]
    } else if idx_le(items, sorted.last(), x) {
        sorted.push(x)
    } else {
        insert_idx(items, sorted.drop_last(), x).push(sorted.last())
    }
}

/// The first `i` indices of `g` insertion-sorted by [`idx_le`]; the sort
/// is stable.
pub open spec fn sort_idx(items: Seq<ContentItem>, g: Seq<usize>, i: int) -> Seq<usize>
    decreases i,
{
    if i <= 0 {
        Seq::empty()
    } else {
        insert_idx(items, sort_idx(items, g, i - 1), g[i - 1])
    }
}

proof fn lemma_insert_at(items: Seq<ContentItem>, sorted: Seq<usize>, x: usize, j: int)
    requires
        0 <= j <= sorted.len(),
        forall|t: int| j <= t < sorted.len() ==> !idx_le(items, #[trigger] sorted[t], x),
        j > 0 ==> idx_le(items, sorted[j - 1], x),
    ensures
        insert_idx(items, sorted, x) == sorted.subrange(0, j) + seq![x] + sorted.subrange(
            j,
            sorted.len() as int,
        ),
    decreases sorted.len(),
{
    if j == sorted.len() {
        if sorted.len() == 0 {
            assert(insert_idx(items, sorted, x) =~= sorted.subrange(0, j) + seq![x]
                + sorted.subrange(j, sorted.len() as int));
        } else {
            assert(sorted.push(x) =~= sorted.subrange(0, j) + seq![x] + sorted.subrange(
                j,
                sorted.len() as int,
            ));
        }
    } else {
        assert(!idx_le(items, sorted.last(), x));
        lemma_insert_at(items, sorted.drop_last(), x, j);
        assert(sorted.drop_last().subrange(0, j) =~= sorted.subrange(0, j));
        assert((sorted.subrange(0, j) + seq![x] + sorted.drop_last().subrange(
            j,
            sorted.len() - 1,
        )).push(sorted.last()) =~= sorted.subrange(0, j) + seq![x] + sorted.subrange(
            j,
            sorted.len() as int,
        ));
    }
}

/// Inserts `x` into a sorted index vector, as [`insert_idx`] describes.
fn insert_sorted(items: &Vec<ContentItem>, sorted: &mut Vec<usize>, x: usize)
    requires
        x < items@.len(),
        forall|t: int| 0 <= t < old(sorted)@.len() ==> #[trigger] old(sorted)@[t] < items@.len(),
    ensures
        final(sorted)@ == insert_idx(items@, old(sorted)@, x),
        forall|t: int| 0 <= t < final(sorted)@.len() ==> #[trigger] final(sorted)@[t]
            < items@.len(),
{
    let mut j: usize = sorted.len();
    while j > 0 && !idx_le_exec(items, sorted[j - 1], x)
        invariant
            j <= sorted@.len(),
            sorted@ == old(sorted)@,
            x < items@.len(),
            forall|t: int| 0 <= t < sorted@.len() ==> #[trigger] sorted@[t] < items@.len(),
            forall|t: int| j <= t < sorted@.len() ==> !idx_le(items@, #[trigger] sorted@[t], x),
        decreases j,
    {
        j = j - 1;
    }
    proof {
        lemma_insert_at(items@, sorted@, x, j as int);
    }
    sorted.insert(j, x);
    proof {
        assert(sorted@ =~= old(sorted)@.subrange(0, j as int) + seq![x] + old(sorted)@.subrange(
            j as int,
            old(sorted)@.len() as int,
        ));
    }
}

/// Sorts one group's indices, as [`sort_idx`] describes.
pub fn sort_group(items: &Vec<ContentItem>, g: Vec<usize>) -> (r: Vec<usize>)
    requires
        forall|t: int| 0 <= t < g@.len() ==> #[trigger] g@[t] < items@.len(),
    ensures
        r@ == sort_idx(items@, g@, g@.len() as int),
{
    let mut sorted: Vec<usize> = Vec::new();
    let mut i: usize = 0;
    proof {
        assert(sorted@ =~= sort_idx(items@, g@, 0));
    }
    while i < g.len()
        invariant
            i <= g@.len(),
            sorted@ == sort_idx(items@, g@, i as int),
            forall|t: int| 0 <= t < g@.len() ==> #[trigger] g@[t] < items@.len(),
            forall|t: int| 0 <= t < sorted@.len() ==> #[trigger] sorted@[t] < items@.len(),
        decreases g@.len() - i,
    {
        insert_sorted(items, &mut sorted, g[i]);
        i = i + 1;
    }
    sorted
}

/// Membership is preserved by insertion.
proof fn lemma_insert_elems(items: Seq<ContentItem>, sorted: Seq<usize>, x: usize)
    ensures
        forall|t: int| 0 <= t < insert_idx(items, sorted, x).len() ==> (exists|u: int|
            0 <= u < sorted.len() && (#[trigger] sorted[u]) == #[trigger] insert_idx(
                items,
                sorted,
                x,
            )[t]) || insert_idx(items, sorted, x)[t] == x,
    decreases sorted.len(),
{
    if sorted.len() == 0 {
    } else if idx_le(items, sorted.last(), x) {
    } else {
        lemma_insert_elems(items, sorted.drop_last(), x);
        let r = insert_idx(items, sorted, x);
        let inner = insert_idx(items, sorted.drop_last(), x);
        assert forall|t: int| #![trigger r[t]] 0 <= t < r.len() implies (exists|u: int|
            0 <= u < sorted.len() && (#[trigger] sorted[u]) == r[t]) || r[t] == x by {
            if t < r.len() - 1 {
                assert(r[t] == inner[t]);
                if !(inner[t] == x) {
                    let dl = sorted.drop_last();
                    let u = choose|u: int| 0 <= u < dl.len() && (#[trigger] dl[u]) == inner[t];
                    assert(sorted[u] == r[t]);
                }
            } else {
                assert(r[t] == sorted.last());
                assert(sorted[sorted.len() - 1] == r[t]);
            }
        }
    }
}

/// Membership is preserved by sorting.
pub proof fn lemma_sort_elems(items: Seq<ContentItem>, g: Seq<usize>, i: int)
    requires
        0 <= i <= g.len(),
    ensures
        forall|t: int| 0 <= t < sort_idx(items, g, i).len() ==> exists|u: int|
            0 <= u < i && (#[trigger] g[u]) == #[trigger] sort_idx(items, g, i)[t],
    decreases i,
{
    if i > 0 {
        lemma_sort_elems(items, g, i - 1);
        lemma_insert_elems(items, sort_idx(items, g, i - 1), g[i - 1]);
        let r = sort_idx(items, g, i);
        assert forall|t: int| #![trigger r[t]] 0 <= t < r.len() implies exists|u: int|
            0 <= u < i && (#[trigger] g[u]) == r[t] by {
            if r[t] == g[i - 1] {
                assert(g[i - 1] == r[t]);
            } else {
                let prev = sort_idx(items, g, i - 1);
                let v = choose|v: int| 0 <= v < prev.len() && #[trigger] prev[v] == r[t];
                let u = choose|u: int| 0 <= u < i - 1 && #[trigger] g[u] == prev[v];
                assert(g[u] == r[t]);
            }
        }
    }
}

/// The cloud weight of a tag used `c` times when the most frequent tag is
/// used `m` times: the bucket `floor((s - 1) * (1 - ln c / ln max(m, e)))
/// + 1` with `s` steps, five here, written with integer powers so that
/// each comparison is exact. More frequent tags get smaller weights.
pub open spec fn tag_weight_spec(c: int, m: int) -> int {
    if c <= 1 {
        5
    } else if m <= 2 {
        2
    } else if (c * c) * (c * c) <= m {
        4
    } else if (c * c) * (c * c) <= m * m {
        3
    } else if (c * c) * (c * c) <= m * (m * m) {
        2
    } else {
        1
    }
}

proof fn lemma_quartic_split(c: int, m: int, d: int, r0: int, q: int, s2: int)
    requires
        2 <= c <= m,
        3 <= m,
        c * c == d * m + r0,
        0 <= r0 < m,
        r0 * r0 == q * m + s2,
        0 <= s2 < m,
        d * d <= m,
    ensures
        (c * c) * (c * c) == m * (d * d * m + 2 * d * r0 + q) + s2,
        ((c * c) * (c * c) <= m * (m * m)) == (d * d * m + 2 * d * r0 + q < m * m || (d * d * m + 2
            * d * r0 + q == m * m && s2 == 0)),
{
    let lhs = d * d * m + 2 * d * r0 + q;
    assert((c * c) * (c * c) == m * lhs + s2) by (nonlinear_arith)
        requires
            c * c == d * m + r0,
            r0 * r0 == q * m + s2,
            lhs == d * d * m + 2 * d * r0 + q,
    ;
    assert((m * lhs + s2 <= m * (m * m)) == (lhs < m * m || (lhs == m * m && s2 == 0)))
        by (nonlinear_arith)
        requires
            0 <= s2 < m,
            3 <= m,
    ;
}

/// Computes the cloud weight, as [`tag_weight_spec`] describes.
#[verifier::rlimit(100)]
pub fn tag_weight(count: usize, max_count: usize) -> (r: usize)
    requires
        1 <= count <= max_count,
    ensures
        r as int == tag_weight_spec(count as int, max_count as int),
        1 <= r <= 5,
{
    if count <= 1 {
        return 5;
    }
    if max_count <= 2 {
        return 2;
    }
    let c: u128 = count as u128;
    let m: u128 = max_count as u128;
    let ghost ci: int = c as int;
    let ghost mi: int = m as int;
    proof {
        assert(ci * ci <= 0xffffffffffffffff * 0xffffffffffffffff) by (nonlinear_arith)
            requires
                0 <= ci <= 0xffffffffffffffff,
        ;
    }
    let c2: u128 = c * c;
    if count <= 65535 {
        proof {
            assert((ci * ci) * (ci * ci) <= 0xffffffffffffffff) by (nonlinear_arith)
                requires
                    0 <= ci <= 65535,
            ;
        }
        let c4: u128 = c2 * c2;
        if c4 <= m {
            return 4;
        }
    } else {
        proof {
            assert((ci * ci) * (ci * ci) > mi) by (nonlinear_arith)
                requires
                    ci >= 65536,
                    mi <= 0xffffffffffffffff,
            ;
        }
    }
    if c2 <= m {
        proof {
            assert((ci * ci) * (ci * ci) <= mi * mi) by (nonlinear_arith)
                requires
                    0 <= ci * ci <= mi,
            ;
        }
        return 3;
    }
    proof {
        assert((ci * ci) * (ci * ci) > mi * mi) by (nonlinear_arith)
            requires
                0 <= mi < ci * ci,
        ;
    }
    let d: u128 = c2 / m;
    let r0: u128 = c2 % m;
    let ghost di: int = d as int;
    let ghost ri: int = r0 as int;
    proof {
        vstd::arithmetic::div_mod::lemma_fundamental_div_mod(c2 as int, mi);
        vstd::arithmetic::div_mod::lemma_mod_bound(c2 as int, mi);
        assert(c2 as int == ci * ci);
        assert(c2 as int == mi * di + ri);
        assert(di * mi + ri == ci * ci && 0 <= ri < mi);
        assert(di <= ci) by (nonlinear_arith)
            requires
                di * mi <= ci * ci,
                2 <= ci <= mi,
                0 <= di,
        ;
        assert(di * di <= ci * ci) by (nonlinear_arith)
            requires
                0 <= di <= ci,
        ;
    }
    if d * d > m {
        proof {
            assert((di * mi + ri) * (di * mi + ri) >= (di * mi) * (di * mi)) by (nonlinear_arith)
                requires
                    0 <= di * mi,
                    0 <= ri,
            ;
            assert((di * mi) * (di * mi) == (di * di) * (mi * mi)) by (nonlinear_arith);
            assert((di * di) * (mi * mi) > mi * (mi * mi)) by (nonlinear_arith)
                requires
                    di * di > mi,
                    mi >= 3,
            ;
            assert(0 <= di * mi) by (nonlinear_arith)
                requires
                    0 <= di,
                    0 <= mi,
            ;
            assert((ci * ci) * (ci * ci) > mi * (mi * mi));
        }
        return 1;
    }
    proof {
        assert(di * di * mi <= mi * mi && 2 * di * ri <= 2 * 0x100000000 * 0xffffffffffffffff
            && di <= 0x100000000 && mi * mi <= 0xffffffffffffffff * 0xffffffffffffffff)
            by (nonlinear_arith)
            requires
                di * di <= mi,
                3 <= mi,
                mi <= 0xffffffffffffffff,
                0 <= ri < mi,
                0 <= di,
        ;
        assert(ri * ri <= 0xffffffffffffffff * 0xffffffffffffffff) by (nonlinear_arith)
            requires
                0 <= ri <= 0xffffffffffffffff,
        ;
    }
    let m2: u128 = m * m;
    let t1: u128 = d * d * m;
    let x: u128 = 2 * d * r0;
    let ghost qi: int = (ri * ri) / mi;
    let ghost si: int = (ri * ri) % mi;
    proof {
        vstd::arithmetic::div_mod::lemma_fundamental_div_mod(ri * ri, mi);
        vstd::arithmetic::div_mod::lemma_mod_bound(ri * ri, mi);
        assert(ri * ri == mi * qi + si);
        assert(qi * mi + si == ri * ri && 0 <= si < mi);
        assert(0 <= qi < mi) by (nonlinear_arith)
            requires
                qi * mi + si == ri * ri,
                0 <= si < mi,
                0 <= ri < mi,
                3 <= mi,
        ;
        lemma_quartic_split(ci, mi, di, ri, qi, si);
    }
    if x > m2 - t1 {
        proof {
            assert(!(di * di * mi + 2 * di * ri + qi < mi * mi)) by (nonlinear_arith)
                requires
                    2 * di * ri > mi * mi - di * di * mi,
                    0 <= qi,
            ;
        }
        return 1;
    }
    let t2: u128 = t1 + x;
    let q: u128 = (r0 * r0) / m;
    let s2: u128 = (r0 * r0) % m;
    if q > m2 - t2 {
        return 1;
    }
    let t3: u128 = t2 + q;
    if t3 < m2 {
        return 2;
    }
    if t3 == m2 && s2 == 0 {
        return 2;
    }
    1
}

/// Tag weight is monotone: a tag used at least as often never gets a
/// larger weight, and every weight lies between one and five.
pub proof fn lemma_tag_weight_monotone(c1: int, c2: int, m: int)
    requires
        1 <= c1 <= c2 <= m,
    ensures
        tag_weight_spec(c2, m) <= tag_weight_spec(c1, m),
        1 <= tag_weight_spec(c1, m) <= 5,
        1 <= tag_weight_spec(c2, m) <= 5,
{
    assert((c1 * c1) * (c1 * c1) <= (c2 * c2) * (c2 * c2)) by (nonlinear_arith)
        requires
            1 <= c1 <= c2,
    ;
}

/// The largest group size, at least one.
pub open spec fn max_len(groups: Seq<(Seq<char>, Seq<usize>)>) -> int
    decreases groups.len(),
{
    if groups.len() == 0 {
        1
    } else if groups.last().1.len() >= max_len(groups.drop_last()) {
        groups.last().1.len() as int
    } else {
        max_len(groups.drop_last())
    }
}

/// The tag cloud: each tag paired with its weight, computed against the
/// most frequent tag.
pub fn tag_cloud(groups: &Vec<(String, Vec<usize>)>) -> (r: Vec<(String, usize)>)
    requires
        forall|k: int| 0 <= k < groups@.len() ==> #[trigger] groups@[k].1@.len() >= 1,
    ensures
        r@.len() == groups@.len(),
        forall|k: int| 0 <= k < r@.len() ==> #[trigger] r@[k].0@ == groups@[k].0@ && r@[k].1 as int
            == tag_weight_spec(groups@[k].1@.len() as int, max_len(groups_view(groups@))),
{
    let mut max_count: usize = 1;
    let mut i: usize = 0;
    proof {
        assert(groups_view(groups@).subrange(0, 0) =~= Seq::<(Seq<char>, Seq<usize>)>::empty());
    }
    while i < groups.len()
        invariant
            i <= groups@.len(),
            max_count as int == if i == 0 {
                1int
            } else {
                max_len(groups_view(groups@).subrange(0, i as int))
            },
            max_count >= 1,
        decreases groups@.len() - i,
    {
        let ghost cur = groups_view(groups@).subrange(0, i + 1 as int);
        proof {
            assert(cur.drop_last() =~= groups_view(groups@).subrange(0, i as int));
            assert(cur.last().1 == groups@[i as int].1@);
            if i == 0 {
                assert(max_len(cur.drop_last()) == 1);
            }
        }
        if groups[i].1.len() > max_count {
            max_count = groups[i].1.len();
        }
        i = i + 1;
    }
    proof {
        assert(groups_view(groups@).subrange(0, groups@.len() as int) =~= groups_view(groups@));
        if groups@.len() == 0 {
            assert(max_len(groups_view(groups@)) == 1);
        }
    }
    let ghost mc = max_len(groups_view(groups@));
    let mut out: Vec<(String, usize)> = Vec::new();
    let mut k: usize = 0;
    while k < groups.len()
        invariant
            k <= groups@.len(),
            out@.len() == k,
            max_count as int == mc,
            max_count >= 1,
            mc == max_len(groups_view(groups@)),
            forall|j: int| 0 <= j < groups@.len() ==> #[trigger] groups@[j].1@.len() >= 1,
            forall|j: int| 0 <= j < k ==> #[trigger] out@[j].0@ == groups@[j].0@ && out@[j].1 as int
                == tag_weight_spec(groups@[j].1@.len() as int, mc),
        decreases groups@.len() - k,
    {
        proof {
            lemma_max_len_bound(groups_view(groups@), k as int);
        }
        let w = tag_weight(groups[k].1.len(), max_count);
        out.push((groups[k].0.clone(), w));
        k = k + 1;
    }
    out
}

/// Every group is at most as large as the largest.
proof fn lemma_max_len_bound(groups: Seq<(Seq<char>, Seq<usize>)>, k: int)
    requires
        0 <= k < groups.len(),
    ensures
        groups[k].1.len() <= max_len(groups),
    decreases groups.len(),
{
    if k < groups.len() - 1 {
        lemma_max_len_bound(groups.drop_last(), k);
    }
}

/// The order is total: any two indices compare at least one way.
proof fn lemma_idx_le_total(items: Seq<ContentItem>, a: usize, b: usize)
    ensures
        idx_le(items, a, b) || idx_le(items, b, a),
{
    crate::text::lemma_lex_lt_total(items[a as int].output_path@, items[b as int].output_path@);
}

/// The order is transitive.
proof fn lemma_idx_le_trans(items: Seq<ContentItem>, a: usize, b: usize, c: usize)
    requires
        idx_le(items, a, b),
        idx_le(items, b, c),
    ensures
        idx_le(items, a, c),
{
    let pa = items[a as int].output_path@;
    let pb = items[b as int].output_path@;
    let pc = items[c as int].output_path@;
    if pa != pb && pb != pc {
        if pa != pc {
            crate::text::lemma_lex_lt_trans(pa, pb, pc);
        } else {
            crate::text::lemma_lex_lt_trans(pb, pa, pb);
            crate::text::lemma_lex_lt_irrefl(pb);
            assert(false);
        }
    }
}

/// The sequence is sorted, pairwise, by [`idx_le`].
pub open spec fn sorted_run(items: Seq<ContentItem>, r: Seq<usize>) -> bool {
    forall|a: int, b: int| 0 <= a < b < r.len() ==> idx_le(items, #[trigger] r[a], #[trigger] r[b])
}

proof fn lemma_insert_keeps_sorted(items: Seq<ContentItem>, sorted: Seq<usize>, x: usize)
    requires
        sorted_run(items, sorted),
    ensures
        sorted_run(items, insert_idx(items, sorted, x)),
    decreases sorted.len(),
{
    let r = insert_idx(items, sorted, x);
    if sorted.len() == 0 {
    } else if idx_le(items, sorted.last(), x) {
        assert forall|a: int, b: int| 0 <= a < b < r.len() implies idx_le(
            items,
            #[trigger] r[a],
            #[trigger] r[b],
        ) by {
            if b == r.len() - 1 && a < sorted.len() - 1 {
                lemma_idx_le_trans(items, sorted[a], sorted.last(), x);
            }
        }
    } else {
        let dl = sorted.drop_last();
        lemma_insert_keeps_sorted(items, dl, x);
        lemma_insert_elems(items, dl, x);
        let inner = insert_idx(items, dl, x);
        lemma_idx_le_total(items, sorted.last(), x);
        assert forall|a: int, b: int| 0 <= a < b < r.len() implies idx_le(
            items,
            #[trigger] r[a],
            #[trigger] r[b],
        ) by {
            if b == r.len() - 1 {
                assert(r[b] == sorted.last());
                assert(r[a] == inner[a]);
                if inner[a] == x {
                    assert(idx_le(items, x, sorted.last()));
                } else {
                    let u = choose|u: int| 0 <= u < dl.len() && (#[trigger] dl[u]) == inner[a];
                    assert(idx_le(items, sorted[u], sorted.last()));
                }
            } else {
                assert(r[a] == inner[a] && r[b] == inner[b]);
            }
        }
    }
}

/// The sort's result is sorted ascending by output path and timestamp.
pub proof fn lemma_sort_idx_sorted(items: Seq<ContentItem>, g: Seq<usize>, i: int)
    requires
        0 <= i <= g.len(),
    ensures
        sorted_run(items, sort_idx(items, g, i)),
    decreases i,
{
    if i > 0 {
        lemma_sort_idx_sorted(items, g, i - 1);
        lemma_insert_keeps_sorted(items, sort_idx(items, g, i - 1), g[i - 1]);
    }
}

proof fn lemma_insert_idx_len(items: Seq<ContentItem>, sorted: Seq<usize>, x: usize)
    ensures
        insert_idx(items, sorted, x).len() == sorted.len() + 1,
    decreases sorted.len(),
{
    if sorted.len() > 0 && !idx_le(items, sorted.last(), x) {
        lemma_insert_idx_len(items, sorted.drop_last(), x);
    }
}

/// Sorting keeps the number of indices.
pub proof fn lemma_sort_idx_len(items: Seq<ContentItem>, g: Seq<usize>, i: int)
    requires
        0 <= i <= g.len(),
    ensures
        sort_idx(items, g, i).len() == i,
    decreases i,
{
    if i > 0 {
        lemma_sort_idx_len(items, g, i - 1);
        lemma_insert_idx_len(items, sort_idx(items, g, i - 1), g[i - 1]);
    }
}

/// Every group holds at least one index.
pub open spec fn groups_nonempty(groups: Seq<(Seq<char>, Seq<usize>)>) -> bool {
    forall|gi: int| 0 <= gi < groups.len() ==> (#[trigger] groups[gi]).1.len() >= 1
}

proof fn lemma_add_to_group_nonempty(
    groups: Seq<(Seq<char>, Seq<usize>)>,
    key: Seq<char>,
    idx: usize,
)
    requires
        groups_nonempty(groups),
    ensures
        groups_nonempty(add_to_group(groups, key, idx)),
{
    lemma_find_group_props(groups, key);
    let post = add_to_group(groups, key, idx);
    assert forall|gi: int| 0 <= gi < post.len() implies (#[trigger] post[gi]).1.len() >= 1 by {
        match find_group(groups, key) {
            Some(g) => {
                if gi != g {
                    assert(post[gi] == groups[gi]);
                }
            },
            None => {
                if gi < groups.len() {
                    assert(post[gi] == groups[gi]);
                }
            },
        }
    }
}

proof fn lemma_add_tags_nonempty(
    groups: Seq<(Seq<char>, Seq<usize>)>,
    tags: Seq<Seq<char>>,
    idx: usize,
    t: int,
)
    requires
        groups_nonempty(groups),
    ensures
        groups_nonempty(add_tags(groups, tags, idx, t)),
    decreases tags.len() - t,
{
    if 0 <= t < tags.len() {
        lemma_add_to_group_nonempty(groups, tags[t], idx);
        lemma_add_tags_nonempty(add_to_group(groups, tags[t], idx), tags, idx, t + 1);
    }
}

/// No layout group is ever empty.
pub proof fn lemma_layout_groups_nonempty(items: Seq<ContentItem>, i: int)
    requires
        0 <= i,
    ensures
        groups_nonempty(layout_groups_rec(items, i)),
    decreases i,
{
    if i > 0 {
        lemma_layout_groups_nonempty(items, i - 1);
        match layout_key(items[i - 1]) {
            Some(k) => {
                lemma_add_to_group_nonempty(layout_groups_rec(items, i - 1), k, (i - 1) as usize);
            },
            None => {},
        }
    }
}

/// No tag group is ever empty.
pub proof fn lemma_tag_groups_nonempty(items: Seq<ContentItem>, i: int)
    requires
        0 <= i,
    ensures
        groups_nonempty(tag_groups_rec(items, i)),
    decreases i,
{
    if i > 0 {
        lemma_tag_groups_nonempty(items, i - 1);
        lemma_add_tags_nonempty(
            tag_groups_rec(items, i - 1),
            tag_keys(items[i - 1]),
            (i - 1) as usize,
            0,
        );
    }
}

/// The groups with each index list sorted by [`idx_le`].
pub open spec fn sorted_groups_spec(
    items: Seq<ContentItem>,
    groups: Seq<(Seq<char>, Seq<usize>)>,
) -> Seq<(Seq<char>, Seq<usize>)> {
    groups.map_values(|g: (Seq<char>, Seq<usize>)| (g.0, sort_idx(items, g.1, g.1.len() as int)))
}

/// Sorts every group of an index, as [`sorted_groups_spec`] describes.
fn sort_all_groups(items: &Vec<ContentItem>, groups: Vec<(String, Vec<usize>)>) -> (r: Vec<(
    String,
    Vec<usize>,
)>)
    requires
        groups_public_upto(items@, groups_view(groups@), items@.len() as int),
    ensures
        groups_view(r@) == sorted_groups_spec(items@, groups_view(groups@)),
{
    let ghost gv = groups_view(groups@);
    let mut queue = groups;
    let mut out: Vec<(String, Vec<usize>)> = Vec::new();
    let ghost k: int = 0;
    while queue.len() > 0
        invariant
            0 <= k <= gv.len(),
            queue@.len() == gv.len() - k,
            forall|t: int| 0 <= t < queue@.len() ==> (#[trigger] queue@[t].0@, queue@[t].1@) == gv[
                k + t],
            groups_public_upto(items@, gv, items@.len() as int),
            out@.len() == k,
            forall|t: int| 0 <= t < k ==> (#[trigger] out@[t].0@, out@[t].1@)
                == sorted_groups_spec(items@, gv)[t],
        decreases queue@.len(),
    {
        let entry = queue.remove(0);
        proof {
            assert((entry.0@, entry.1@) == gv[k]);
            assert forall|t: int| 0 <= t < entry.1@.len() implies #[trigger] entry.1@[t]
                < items@.len() by {
                assert(gv[k].1[t] < items@.len());
            }
        }
        let sorted = sort_group(items, entry.1);
        out.push((entry.0, sorted));
        proof {
            k = k + 1;
        }
    }
    proof {
        assert(groups_view(out@) =~= sorted_groups_spec(items@, gv));
    }
    out
}

/// The layout index: public items grouped by layout, each group sorted
/// ascending by output path and timestamp.
pub fn layout_index(items: &Vec<ContentItem>) -> (r: Vec<(String, Vec<usize>)>)
    ensures
        groups_view(r@) == sorted_groups_spec(
            items@,
            layout_groups_rec(items@, items@.len() as int),
        ),
        groups_public_upto(items@, groups_view(r@), items@.len() as int),
        forall|k: int| 0 <= k < r@.len() ==> sorted_run(items@, #[trigger] groups_view(r@)[k].1),
        groups_nonempty(groups_view(r@)),
{
    let n = items.len();
    let groups = layout_groups(items);
    proof {
        assert(items@.len() == n as int);
        lemma_layout_groups_public(items@, items@.len() as int);
        lemma_layout_groups_nonempty(items@, items@.len() as int);
    }
    let ghost gv0 = groups_view(groups@);
    proof {
        assert(groups_nonempty(gv0));
    }
    let r = sort_all_groups(items, groups);
    proof {
        lemma_sorted_groups_public(items@, gv0, items@.len() as int);
        assert forall|k: int| 0 <= k < r@.len() implies sorted_run(
            items@,
            #[trigger] groups_view(r@)[k].1,
        ) && groups_view(r@)[k].1.len() >= 1 by {
            assert(groups_view(r@).len() == r@.len());
            assert(sorted_groups_spec(items@, gv0).len() == gv0.len());
            assert(0 <= k < gv0.len());
            let base = gv0[k].1;
            lemma_sort_idx_sorted(items@, base, base.len() as int);
            lemma_sort_idx_len(items@, base, base.len() as int);
            assert(gv0[k].1.len() >= 1);
            assert(groups_view(r@)[k].1 == sort_idx(items@, base, base.len() as int));
        }
    }
    r
}

/// The tag index: public items grouped by each tag occurrence, each group
/// sorted ascending by output path and timestamp.
pub fn tag_index(items: &Vec<ContentItem>) -> (r: Vec<(String, Vec<usize>)>)
    ensures
        groups_view(r@) == sorted_groups_spec(items@, tag_groups_rec(items@, items@.len() as int)),
        groups_public_upto(items@, groups_view(r@), items@.len() as int),
        forall|k: int| 0 <= k < r@.len() ==> sorted_run(items@, #[trigger] groups_view(r@)[k].1),
        groups_nonempty(groups_view(r@)),
{
    let n = items.len();
    let groups = tag_groups(items);
    proof {
        assert(items@.len() == n as int);
        lemma_tag_groups_public(items@, items@.len() as int);
        lemma_tag_groups_nonempty(items@, items@.len() as int);
    }
    let ghost gv0 = groups_view(groups@);
    proof {
        assert(groups_nonempty(gv0));
    }
    let r = sort_all_groups(items, groups);
    proof {
        lemma_sorted_groups_public(items@, gv0, items@.len() as int);
        assert forall|k: int| 0 <= k < r@.len() implies sorted_run(
            items@,
            #[trigger] groups_view(r@)[k].1,
        ) && groups_view(r@)[k].1.len() >= 1 by {
            assert(groups_view(r@).len() == r@.len());
            assert(sorted_groups_spec(items@, gv0).len() == gv0.len());
            assert(0 <= k < gv0.len());
            let base = gv0[k].1;
            lemma_sort_idx_sorted(items@, base, base.len() as int);
            lemma_sort_idx_len(items@, base, base.len() as int);
            assert(gv0[k].1.len() >= 1);
            assert(groups_view(r@)[k].1 == sort_idx(items@, base, base.len() as int));
        }
    }
    r
}

/// Sorting the groups keeps every held index public and in bounds.
proof fn lemma_sorted_groups_public(
    items: Seq<ContentItem>,
    groups: Seq<(Seq<char>, Seq<usize>)>,
    bound: int,
)
    requires
        groups_public_upto(items, groups, bound),
    ensures
        groups_public_upto(items, sorted_groups_spec(items, groups), bound),
{
    let sg = sorted_groups_spec(items, groups);
    assert forall|gi: int, t: int|
        0 <= gi < sg.len() && 0 <= t < sg[gi].1.len() implies (#[trigger] sg[gi].1[t]) < bound
        && items[sg[gi].1[t] as int].status == ContentStatus::Public by {
        lemma_sort_elems(items, groups[gi].1, groups[gi].1.len() as int);
        let u = choose|u: int|
            0 <= u < groups[gi].1.len() && (#[trigger] groups[gi].1[u]) == sg[gi].1[t];
        assert(groups[gi].1[u] < bound);
    }
}

/// The indices reversed: the most recent entries first when the input is
/// sorted ascending.
pub fn reversed(g: &Vec<usize>) -> (r: Vec<usize>)
    ensures
        r@ == g@.reverse(),
{
    let mut out: Vec<usize> = Vec::new();
    let mut i: usize = g.len();
    while i > 0
        invariant
            i <= g@.len(),
            out@.len() == g@.len() - i,
            forall|j: int| 0 <= j < out@.len() ==> #[trigger] out@[j] == g@[g@.len() - 1 - j],
        decreases i,
    {
        i = i - 1;
        out.push(g[i]);
    }
    proof {
        assert(out@ =~= g@.reverse());
    }
    out
}

/// Every index the groups hold points below `bound` at a public item.
pub open spec fn groups_public_upto(
    items: Seq<ContentItem>,
    groups: Seq<(Seq<char>, Seq<usize>)>,
    bound: int,
) -> bool {
    forall|gi: int, t: int|
        0 <= gi < groups.len() && 0 <= t < groups[gi].1.len() ==> (#[trigger] groups[gi].1[t])
            < bound && items[groups[gi].1[t] as int].status == ContentStatus::Public
}

/// Every index a layout group holds points at a public item before
/// position `i`.
pub proof fn lemma_layout_groups_public(items: Seq<ContentItem>, i: int)
    requires
        0 <= i <= items.len(),
        items.len() <= usize::MAX,
    ensures
        groups_public_upto(items, layout_groups_rec(items, i), i),
    decreases i,
{
    if i > 0 {
        lemma_layout_groups_public(items, i - 1);
        let pre = layout_groups_rec(items, i - 1);
        match layout_key(items[i - 1]) {
            Some(k) => {
                lemma_find_group_props(pre, k);
                let post = add_to_group(pre, k, (i - 1) as usize);
                assert forall|gi: int, t: int|
                    0 <= gi < post.len() && 0 <= t < post[gi].1.len() implies (#[trigger] post[
                gi].1[t]) < i && items[post[gi].1[t] as int].status == ContentStatus::Public by {
                    match find_group(pre, k) {
                        Some(g) => {
                            if gi == g && t == post[gi].1.len() - 1 {
                                assert(post[gi].1[t] == (i - 1) as usize);
                            } else {
                                assert(post[gi].1[t] == pre[gi].1[t]);
                            }
                        },
                        None => {
                            if gi == post.len() - 1 {
                                assert(post[gi].1 =~= seq![(i - 1) as usize]);
                            } else {
                                assert(post[gi].1[t] == pre[gi].1[t]);
                            }
                        },
                    }
                }
            },
            None => {},
        }
    }
}

/// Every index a tag group holds points at a public item: the tag-fold
/// preserves the property.
proof fn lemma_add_tags_public(
    items: Seq<ContentItem>,
    groups: Seq<(Seq<char>, Seq<usize>)>,
    tags: Seq<Seq<char>>,
    idx: usize,
    t: int,
    bound: int,
)
    requires
        idx < bound <= items.len(),
        items.len() <= usize::MAX,
        items[idx as int].status == ContentStatus::Public,
        groups_public_upto(items, groups, bound),
    ensures
        groups_public_upto(items, add_tags(groups, tags, idx, t), bound),
    decreases tags.len() - t,
{
    if 0 <= t < tags.len() {
        let g2 = add_to_group(groups, tags[t], idx);
        lemma_find_group_props(groups, tags[t]);
        assert forall|gi: int, u: int|
            0 <= gi < g2.len() && 0 <= u < g2[gi].1.len() implies (#[trigger] g2[gi].1[u]) < bound
            && items[g2[gi].1[u] as int].status == ContentStatus::Public by {
            match find_group(groups, tags[t]) {
                Some(g) => {
                    if gi == g && u == g2[gi].1.len() - 1 {
                        assert(g2[gi].1[u] == idx);
                    } else {
                        assert(g2[gi].1[u] == groups[gi].1[u]);
                    }
                },
                None => {
                    if gi == g2.len() - 1 {
                        assert(g2[gi].1 =~= seq![idx]);
                    } else {
                        assert(g2[gi].1[u] == groups[gi].1[u]);
                    }
                },
            }
        }
        lemma_add_tags_public(items, g2, tags, idx, t + 1, bound);
    }
}

/// Every index a tag group holds points at a public item before `i`.
pub proof fn lemma_tag_groups_public(items: Seq<ContentItem>, i: int)
    requires
        0 <= i <= items.len(),
        items.len() <= usize::MAX,
    ensures
        groups_public_upto(items, tag_groups_rec(items, i), i),
    decreases i,
{
    if i > 0 {
        lemma_tag_groups_public(items, i - 1);
        let pre = tag_groups_rec(items, i - 1);
        if items[i - 1].status == ContentStatus::Public {
            lemma_add_tags_public(items, pre, tag_keys(items[i - 1]), (i - 1) as usize, 0, i);
        }
    }
}

} // verus!
