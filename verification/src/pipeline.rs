//! The markdown pipeline: tokenizer, Event Rewriter, Footnote Bottomer
//! and HTML serializer composed, plus the link classification that the
//! validation pass runs over the same events.

use vstd::prelude::*;
use vstd::string::*;
use crate::events::{MdEvent, EvSpec, evs, events_of, html_of, tokenize, render_html};
use crate::rewrite::{rewrite_seq, rewrite_links};
use crate::footnotes::{bottom_spec, bottom_footnotes};
use crate::text::is_prefix;

verus! {

/// The event sequence a markdown text denotes after link rewriting and
/// footnote relocation.
pub open spec fn pipeline_spec(text: Seq<char>) -> Seq<EvSpec> {
    bottom_spec(rewrite_seq(events_of(text)))
}

/// Tokenizes `markdown` and applies the Event Rewriter and the Footnote
/// Bottomer, as [`pipeline_spec`] describes.
pub fn to_events(markdown: &str) -> (r: Vec<MdEvent>)
    ensures
        evs(r@) == pipeline_spec(markdown@),
{
    let toks = tokenize(markdown);
    let rewritten = rewrite_links(toks);
    bottom_footnotes(rewritten)
}

/// Serializes the transformed event sequence of `markdown` to HTML.
pub fn to_html(markdown: &str) -> (r: String)
    ensures
        r@ == html_of(pipeline_spec(markdown@)),
{
    let events = to_events(markdown);
    render_html(events)
}

/// What the Link Validator concludes about one link destination.
pub enum LinkCheck {
    /// An internal link: the cleaned path to test against the output
    /// tree.
    Internal { target: String },
    /// An external `http` or `mailto` link; nothing to check.
    External,
    /// Neither internal nor a recognized external scheme.
    Malformed { url: String },
}

/// The model of a link conclusion.
pub enum LinkCheckSpec {
    Internal { target: Seq<char> },
    External,
    Malformed { url: Seq<char> },
}

impl View for LinkCheck {
    type V = LinkCheckSpec;

    open spec fn view(&self) -> LinkCheckSpec {
        match self {
            LinkCheck::Internal { target } => LinkCheckSpec::Internal { target: target@ },
            LinkCheck::External => LinkCheckSpec::External,
            LinkCheck::Malformed { url } => LinkCheckSpec::Malformed { url: url@ },
        }
    }
}

/// `s` with leading `'/'` characters dropped.
pub open spec fn trim_slash_start(s: Seq<char>) -> Seq<char>
    decreases s.len(),
{
    if s.len() > 0 && s.first() == '/' {
        trim_slash_start(s.subrange(1, s.len() as int))
    } else {
        s
    }
}

/// `s` with trailing `'/'` characters dropped.
pub open spec fn trim_slash_end(s: Seq<char>) -> Seq<char>
    decreases s.len(),
{
    if s.len() > 0 && s.last() == '/' {
        trim_slash_end(s.drop_last())
    } else {
        s
    }
}

/// `s` up to but not including its first `'#'`.
pub open spec fn before_hash(s: Seq<char>) -> Seq<char>
    decreases s.len(),
{
    if s.len() == 0 {
        s
    } else if s.first() == '#' {
        Seq::empty()
    } else {
        seq![s.first()] + before_hash(s.subrange(1, s.len() as int))
    }
}

/// The conclusion for one destination: a leading `'/'` marks an internal
/// link, whose target is the path with surrounding slashes and any anchor
/// suffix dropped; `http` and `mailto` prefixes are external; everything
/// else is malformed.
pub open spec fn classify_url(u: Seq<char>) -> LinkCheckSpec {
    if u.len() > 0 && u.first() == '/' {
        LinkCheckSpec::Internal { target: before_hash(trim_slash_end(trim_slash_start(u))) }
    } else if is_prefix("http"@, u) || is_prefix("mailto"@, u) {
        LinkCheckSpec::External
    } else {
        LinkCheckSpec::Malformed { url: u }
    }
}

proof fn lemma_trim_slash_start_skip(s: Seq<char>, k: int)
    requires
        0 <= k <= s.len(),
        forall|j: int| 0 <= j < k ==> s[j] == '/',
        k < s.len() ==> s[k] != '/',
    ensures
        trim_slash_start(s) == s.subrange(k, s.len() as int),
    decreases k,
{
    if k == 0 {
        assert(s.subrange(0, s.len() as int) =~= s);
    } else {
        let u = s.subrange(1, s.len() as int);
        lemma_trim_slash_start_skip(u, k - 1);
        assert(u.subrange(k - 1, u.len() as int) =~= s.subrange(k, s.len() as int));
    }
}

proof fn lemma_trim_slash_end_skip(s: Seq<char>, k: int)
    requires
        0 <= k <= s.len(),
        forall|j: int| k <= j < s.len() ==> s[j] == '/',
        k > 0 ==> s[k - 1] != '/',
    ensures
        trim_slash_end(s) == s.subrange(0, k),
    decreases s.len() - k,
{
    if k == s.len() {
        assert(s.subrange(0, s.len() as int) =~= s);
    } else {
        lemma_trim_slash_end_skip(s.drop_last(), k);
        assert(s.drop_last().subrange(0, k) =~= s.subrange(0, k));
    }
}

proof fn lemma_before_hash_cut(s: Seq<char>, k: int)
    requires
        0 <= k <= s.len(),
        forall|j: int| 0 <= j < k ==> s[j] != '#',
        k < s.len() ==> s[k] == '#',
    ensures
        before_hash(s) == s.subrange(0, k),
    decreases k,
{
    if k == 0 {
        if s.len() == 0 {
            assert(s.subrange(0, 0) =~= s);
        } else {
            assert(s.subrange(0, 0) =~= Seq::<char>::empty());
        }
    } else {
        let u = s.subrange(1, s.len() as int);
        lemma_before_hash_cut(u, k - 1);
        assert(seq![s.first()] + u.subrange(0, k - 1) =~= s.subrange(0, k));
    }
}

/// Classifies one link destination, as [`classify_url`] describes.
pub fn classify_link(url: String) -> (r: LinkCheck)
    ensures
        r@ == classify_url(url@),
{
    let s = url.as_str();
    let n = s.unicode_len();
    if n > 0 && s.get_char(0) == '/' {
        let mut lo: usize = 0;
        while lo < n && s.get_char(lo) == '/'
            invariant
                lo <= n,
                n as nat == s@.len(),
                forall|j: int| 0 <= j < lo ==> s@[j] == '/',
            decreases n - lo,
        {
            lo = lo + 1;
        }
        proof {
            lemma_trim_slash_start_skip(s@, lo as int);
        }
        let ghost t1 = trim_slash_start(s@);
        let mut hi: usize = n;
        while hi > lo && s.get_char(hi - 1) == '/'
            invariant
                lo <= hi <= n,
                n as nat == s@.len(),
                t1 == s@.subrange(lo as int, n as int),
                forall|j: int| hi <= j < n ==> s@[j] == '/',
            decreases hi,
        {
            hi = hi - 1;
        }
        proof {
            assert(forall|j: int| hi - lo <= j < t1.len() ==> t1[j] == '/');
            assert(hi > lo ==> t1[hi - lo - 1] == s@[hi - 1]);
            lemma_trim_slash_end_skip(t1, hi - lo);
            assert(t1.subrange(0, hi - lo) =~= s@.subrange(lo as int, hi as int));
        }
        let ghost t2 = trim_slash_end(t1);
        let mut cut: usize = lo;
        while cut < hi && s.get_char(cut) != '#'
            invariant
                lo <= cut <= hi,
                hi <= n,
                n as nat == s@.len(),
                t2 == s@.subrange(lo as int, hi as int),
                forall|j: int| lo <= j < cut ==> s@[j] != '#',
            decreases hi - cut,
        {
            cut = cut + 1;
        }
        proof {
            assert(forall|j: int| 0 <= j < cut - lo ==> t2[j] != '#');
            assert(cut < hi ==> t2[cut - lo] == s@[cut as int]);
            lemma_before_hash_cut(t2, cut - lo);
            assert(t2.subrange(0, cut - lo) =~= s@.subrange(lo as int, cut as int));
        }
        let target = s.substring_char(lo, cut).to_owned();
        LinkCheck::Internal { target }
    } else if crate::text::starts_with(s, "http") || crate::text::starts_with(s, "mailto") {
        LinkCheck::External
    } else {
        LinkCheck::Malformed { url }
    }
}

/// The conclusions for every link start in an event sequence, in order.
pub open spec fn links_report(s: Seq<EvSpec>) -> Seq<LinkCheckSpec>
    decreases s.len(),
{
    if s.len() == 0 {
        Seq::empty()
    } else {
        links_report(s.drop_last()) + (match s.last() {
            EvSpec::LinkStart { dest, .. } => seq![classify_url(dest)],
            _ => Seq::empty(),
        })
    }
}

/// The views of a vector of link conclusions.
pub open spec fn checks_view(v: Seq<LinkCheck>) -> Seq<LinkCheckSpec> {
    v.map_values(|c: LinkCheck| c@)
}

/// Classifies every link destination of `events`, as [`links_report`]
/// describes. The caller tests each internal target against the output
/// tree and reports; nothing here aborts.
pub fn link_checks(events: &Vec<MdEvent>) -> (r: Vec<LinkCheck>)
    ensures
        checks_view(r@) == links_report(evs(events@)),
{
    let mut out: Vec<LinkCheck> = Vec::new();
    let mut i: usize = 0;
    proof {
        assert(checks_view(out@) =~= links_report(evs(events@).subrange(0, 0)));
    }
    while i < events.len()
        invariant
            i <= events@.len(),
            checks_view(out@) == links_report(evs(events@).subrange(0, i as int)),
        decreases events@.len() - i,
    {
        let ghost cur = evs(events@).subrange(0, i + 1 as int);
        proof {
            assert(cur.drop_last() =~= evs(events@).subrange(0, i as int));
            assert(cur.last() == events@[i as int]@);
        }
        match &events[i] {
            MdEvent::LinkStart { dest, .. } => {
                let c = classify_link(dest.clone());
                out.push(c);
                proof {
                    assert(checks_view(out@) =~= links_report(cur));
                }
            },
            _ => {
                proof {
                    assert(checks_view(out@) =~= links_report(cur));
                }
            },
        }
        i = i + 1;
    }
    proof {
        assert(evs(events@).subrange(0, events@.len() as int) =~= evs(events@));
    }
    out
}

} // verus!
