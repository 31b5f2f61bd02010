//! The Event Rewriter: strips the archival-escape marker from link
//! destinations and leaves every other event untouched.

use vstd::prelude::*;
use vstd::string::*;
use crate::events::{MdEvent, EvSpec, evs};

verus! {

/// `s` with every leading `'!'` removed.
pub open spec fn strip_bangs(s: Seq<char>) -> Seq<char>
    decreases s.len(),
{
    if s.len() > 0 && s.first() == '!' {
        strip_bangs(s.subrange(1, s.len() as int))
    } else {
        s
    }
}

/// One event rewritten: a link start keeps everything but its stripped
/// destination; all other events pass through.
pub open spec fn rewrite_ev(e: EvSpec) -> EvSpec {
    match e {
        EvSpec::LinkStart { link_type, dest, title, id } => EvSpec::LinkStart {
            link_type,
            dest: strip_bangs(dest),
            title,
            id,
        },
        _ => e,
    }
}

/// The whole sequence rewritten, element by element.
pub open spec fn rewrite_seq(s: Seq<EvSpec>) -> Seq<EvSpec> {
    s.map_values(|e: EvSpec| rewrite_ev(e))
}

proof fn lemma_strip_bangs_skip(s: Seq<char>, k: int)
    requires
        0 <= k <= s.len(),
        forall|j: int| 0 <= j < k ==> s[j] == '!',
        k < s.len() ==> s[k] != '!',
    ensures
        strip_bangs(s) == s.subrange(k, s.len() as int),
    decreases k,
{
    if k == 0 {
        assert(s.subrange(0, s.len() as int) =~= s);
    } else {
        let u = s.subrange(1, s.len() as int);
        lemma_strip_bangs_skip(u, k - 1);
        assert(u.subrange(k - 1, u.len() as int) =~= s.subrange(k, s.len() as int));
    }
}

/// Strips leading `'!'` characters, as [`strip_bangs`] describes.
pub fn strip_bangs_exec(s: &str) -> (r: String)
    ensures
        r@ == strip_bangs(s@),
{
    let n = s.unicode_len();
    let mut k: usize = 0;
    while k < n && s.get_char(k) == '!'
        invariant
            k <= n,
            n as nat == s@.len(),
            forall|j: int| 0 <= j < k ==> s@[j] == '!',
        decreases n - k,
    {
        k = k + 1;
    }
    proof {
        lemma_strip_bangs_skip(s@, k as int);
    }
    s.substring_char(k, n).to_owned()
}

/// Rewrites every link destination, as [`rewrite_seq`] describes. This
/// transformation is total: it never fails and keeps the sequence length.
pub fn rewrite_links(events: Vec<MdEvent>) -> (r: Vec<MdEvent>)
    ensures
        evs(r@) == rewrite_seq(evs(events@)),
{
    let ghost orig = evs(events@);
    let mut input = events;
    let mut out: Vec<MdEvent> = Vec::new();
    proof {
        assert(evs(out@) =~= rewrite_seq(orig).subrange(0, 0));
    }
    while input.len() > 0
        invariant
            out@.len() + input@.len() == orig.len(),
            evs(out@) == rewrite_seq(orig).subrange(0, out@.len() as int),
            forall|j: int| 0 <= j < input@.len()
                ==> #[trigger] input@[j]@ == orig[out@.len() + j],
        decreases input@.len(),
    {
        let ghost done = out@.len() as int;
        let e = input.remove(0);
        proof {
            assert(e@ == orig[done]);
        }
        match e {
            MdEvent::LinkStart { link_type, dest, title, id } => {
                let stripped = strip_bangs_exec(dest.as_str());
                out.push(MdEvent::LinkStart { link_type, dest: stripped, title, id });
            },
            other => {
                out.push(other);
            },
        }
        proof {
            assert(evs(out@) =~= rewrite_seq(orig).subrange(0, done + 1));
        }
    }
    proof {
        assert(evs(out@) =~= rewrite_seq(orig));
    }
    out
}

/// Stripping the marker is idempotent: a stripped destination starts with
/// no `'!'`, so a second strip returns it unchanged.
pub proof fn lemma_strip_bangs_idempotent(s: Seq<char>)
    ensures
        strip_bangs(strip_bangs(s)) == strip_bangs(s),
    decreases s.len(),
{
    if s.len() > 0 && s.first() == '!' {
        lemma_strip_bangs_idempotent(s.subrange(1, s.len() as int));
    }
}

/// Running the Event Rewriter twice is the same as running it once.
pub proof fn lemma_rewrite_idempotent(s: Seq<EvSpec>)
    ensures
        rewrite_seq(rewrite_seq(s)) == rewrite_seq(s),
{
    assert forall|j: int| 0 <= j < s.len() implies #[trigger] rewrite_seq(rewrite_seq(s))[j]
        == rewrite_seq(s)[j] by {
        match s[j] {
            EvSpec::LinkStart { link_type, dest, title, id } => {
                lemma_strip_bangs_idempotent(dest);
            },
            _ => {},
        }
    }
    assert(rewrite_seq(rewrite_seq(s)) =~= rewrite_seq(s));
}

} // verus!
