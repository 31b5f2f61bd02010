//! The article projection handed to templates and feeds: title, url,
//! rendered content and summary, tags and formatted dates.

use vstd::prelude::*;
use vstd::string::*;
use crate::chars::{two_digits, push_two_digits};
use crate::content::{ContentItem, Timestamp, LoadError};
use crate::loader::{year_digits, push_year};
use crate::pipeline::{pipeline_spec, to_html};
use crate::events::html_of;
use crate::text::pieces_view;

verus! {

/// A summary boundary: the split-inclusive delimiters of the original
/// tokenization.
pub open spec fn summary_delim(c: char) -> bool {
    c == ' ' || c == '\n'
}

/// The length of the prefix holding the first `k` delimiter-terminated
/// pieces of `s`: everything up to and including the `k`-th delimiter, or
/// all of `s` when it has fewer.
pub open spec fn cut_len(s: Seq<char>, k: int) -> int
    decreases s.len(),
{
    if k <= 0 || s.len() == 0 {
        0
    } else if summary_delim(s.first()) {
        1 + cut_len(s.subrange(1, s.len() as int), k - 1)
    } else {
        1 + cut_len(s.subrange(1, s.len() as int), k)
    }
}

/// The markdown handed to the summary rendering: the first hundred
/// whitespace-delimited pieces, with an ellipsis appended.
pub open spec fn summary_md(s: Seq<char>) -> Seq<char> {
    s.subrange(0, cut_len(s, 100)) + "..."@
}

proof fn lemma_cut_len_step(s: Seq<char>, i: int, k: int)
    requires
        0 <= i < s.len(),
        k > 0,
    ensures
        cut_len(s.subrange(i, s.len() as int), k) == 1 + cut_len(
            s.subrange(i + 1, s.len() as int),
            if summary_delim(s[i]) {
                k - 1
            } else {
                k
            },
        ),
{
    let t = s.subrange(i, s.len() as int);
    assert(t.first() == s[i]);
    assert(t.subrange(1, t.len() as int) =~= s.subrange(i + 1, s.len() as int));
}

/// Builds the summary source of `s`, as [`summary_md`] describes.
pub fn summary_source(s: &str) -> (r: String)
    ensures
        r@ == summary_md(s@),
{
    let n = s.unicode_len();
    let mut i: usize = 0;
    let mut k: usize = 100;
    proof {
        assert(s@.subrange(0, s@.len() as int) =~= s@);
    }
    while i < n && k > 0
        invariant
            i <= n,
            k <= 100,
            n as nat == s@.len(),
            cut_len(s@, 100) == i + cut_len(s@.subrange(i as int, s@.len() as int), k as int),
        decreases n - i,
    {
        proof {
            lemma_cut_len_step(s@, i as int, k as int);
        }
        let c = s.get_char(i);
        if c == ' ' || c == '\n' {
            k = k - 1;
        }
        i = i + 1;
    }
    proof {
        let t = s@.subrange(i as int, s@.len() as int);
        if k == 0 {
            assert(cut_len(t, 0) == 0);
        } else {
            assert(t.len() == 0);
            assert(cut_len(t, k as int) == 0);
        }
        assert(cut_len(s@, 100) == i as int);
    }
    let mut out = s.substring_char(0, i).to_owned();
    out.append("...");
    proof {
        assert(out@ =~= summary_md(s@));
    }
    out
}

/// Day of the week for a proleptic Gregorian date, by Sakamoto's
/// congruence with the year shifted into the positive range by a multiple
/// of the 400-year cycle: 0 is Sunday through 6 Saturday.
pub open spec fn day_of_week(y: int, m: int, d: int) -> int {
    let yy: int = if m < 3 {
        y + 399999
    } else {
        y + 400000
    };
    (yy + yy / 4 - yy / 100 + yy / 400 + month_offset(m) + d) % 7
}

/// Sakamoto's month offsets.
pub open spec fn month_offset(m: int) -> int {
    if m == 1 { 0 }
    else if m == 2 { 3 }
    else if m == 3 { 2 }
    else if m == 4 { 5 }
    else if m == 5 { 0 }
    else if m == 6 { 3 }
    else if m == 7 { 5 }
    else if m == 8 { 1 }
    else if m == 9 { 4 }
    else if m == 10 { 6 }
    else if m == 11 { 2 }
    else { 4 }
}

fn month_offset_exec(m: u32) -> (r: u64)
    requires
        1 <= m <= 12,
    ensures
        r as int == month_offset(m as int),
{
    if m == 1 { 0 }
    else if m == 2 { 3 }
    else if m == 3 { 2 }
    else if m == 4 { 5 }
    else if m == 5 { 0 }
    else if m == 6 { 3 }
    else if m == 7 { 5 }
    else if m == 8 { 1 }
    else if m == 9 { 4 }
    else if m == 10 { 6 }
    else if m == 11 { 2 }
    else { 4 }
}

/// Computes the weekday of a timestamp, as [`day_of_week`] describes.
pub fn weekday_of(ts: &Timestamp) -> (r: u64)
    requires
        ts.valid(),
    ensures
        r as int == day_of_week(ts.year as int, ts.month as int, ts.day as int),
        r < 7,
{
    let shift: i64 = if ts.month < 3 {
        399999
    } else {
        400000
    };
    let yy: u64 = ((ts.year as i64) + shift) as u64;
    let t = month_offset_exec(ts.month);
    (yy + yy / 4 - yy / 100 + yy / 400 + t + (ts.day as u64)) % 7
}

/// The abbreviated English weekday name, Sunday first.
pub open spec fn weekday_abbrev(w: int) -> Seq<char> {
    if w == 0 { "Sun"@ }
    else if w == 1 { "Mon"@ }
    else if w == 2 { "Tue"@ }
    else if w == 3 { "Wed"@ }
    else if w == 4 { "Thu"@ }
    else if w == 5 { "Fri"@ }
    else { "Sat"@ }
}

pub fn push_weekday_abbrev(s: &mut String, w: u64)
    requires
        w < 7,
    ensures
        final(s)@ == old(s)@ + weekday_abbrev(w as int),
{
    if w == 0 { s.append("Sun") }
    else if w == 1 { s.append("Mon") }
    else if w == 2 { s.append("Tue") }
    else if w == 3 { s.append("Wed") }
    else if w == 4 { s.append("Thu") }
    else if w == 5 { s.append("Fri") }
    else { s.append("Sat") }
}

/// The full English month name.
pub open spec fn month_name(m: int) -> Seq<char> {
    if m == 1 { "January"@ }
    else if m == 2 { "February"@ }
    else if m == 3 { "March"@ }
    else if m == 4 { "April"@ }
    else if m == 5 { "May"@ }
    else if m == 6 { "June"@ }
    else if m == 7 { "July"@ }
    else if m == 8 { "August"@ }
    else if m == 9 { "September"@ }
    else if m == 10 { "October"@ }
    else if m == 11 { "November"@ }
    else { "December"@ }
}

fn push_month_name(s: &mut String, m: u32)
    requires
        1 <= m <= 12,
    ensures
        final(s)@ == old(s)@ + month_name(m as int),
{
    if m == 1 { s.append("January") }
    else if m == 2 { s.append("February") }
    else if m == 3 { s.append("March") }
    else if m == 4 { s.append("April") }
    else if m == 5 { s.append("May") }
    else if m == 6 { s.append("June") }
    else if m == 7 { s.append("July") }
    else if m == 8 { s.append("August") }
    else if m == 9 { s.append("September") }
    else if m == 10 { s.append("October") }
    else if m == 11 { s.append("November") }
    else { s.append("December") }
}

/// The locale date line of a timestamp: abbreviated weekday, two-digit
/// day, full month name and year.
pub open spec fn locale_date_seq(ts: Timestamp) -> Seq<char> {
    weekday_abbrev(day_of_week(ts.year as int, ts.month as int, ts.day as int)) + " "@
        + two_digits(ts.day as nat) + " "@ + month_name(ts.month as int) + " "@ + year_digits(
        ts.year as int,
    )
}

/// Formats a timestamp's locale date, as [`locale_date_seq`] describes.
pub fn locale_date(ts: &Timestamp) -> (r: String)
    requires
        ts.valid(),
    ensures
        r@ == locale_date_seq(*ts),
{
    let w = weekday_of(ts);
    let mut out = String::new();
    push_weekday_abbrev(&mut out, w);
    out.append(" ");
    push_two_digits(&mut out, ts.day as u64);
    out.append(" ");
    push_month_name(&mut out, ts.month);
    out.append(" ");
    push_year(&mut out, ts.year);
    proof {
        assert(out@ =~= locale_date_seq(*ts));
    }
    out
}

/// One article as the templates and feeds see it.
#[derive(Debug)]
pub struct Article {
    pub title: String,
    pub url: String,
    pub content: String,
    pub summary: String,
    pub tags: Vec<String>,
    pub timestamp: Timestamp,
    pub locale_date: String,
}

/// Clones a tag list, preserving its view.
pub fn clone_strings(v: &Vec<String>) -> (r: Vec<String>)
    ensures
        pieces_view(r@) == pieces_view(v@),
{
    let mut out: Vec<String> = Vec::new();
    let mut i: usize = 0;
    while i < v.len()
        invariant
            i <= v@.len(),
            out@.len() == i,
            forall|j: int| 0 <= j < i ==> #[trigger] out@[j]@ == v@[j]@,
        decreases v@.len() - i,
    {
        out.push(v[i].clone());
        i = i + 1;
    }
    proof {
        assert(pieces_view(out@) =~= pieces_view(v@));
    }
    out
}

/// Projects a content item into an article: the title from the metadata,
/// the output path as url, body and hundred-piece summary through the
/// markdown pipeline, and the formatted date. Fails only when the
/// metadata has no title.
pub fn to_article(item: &ContentItem) -> (r: Result<Article, LoadError>)
    requires
        item.timestamp.valid(),
    ensures
        match r {
            Ok(a) => item.metadata@.contains_key("title"@) && a.title@ == item.metadata@["title"@]
                && a.url@ == item.output_path@ && a.content@ == html_of(
                pipeline_spec(item.markdown@),
            ) && a.summary@ == html_of(pipeline_spec(summary_md(item.markdown@)))
                && pieces_view(a.tags@) == pieces_view(item.tags@) && a.timestamp == item.timestamp
                && a.locale_date@ == locale_date_seq(item.timestamp),
            Err(e) => !item.metadata@.contains_key("title"@) && e == LoadError::MissingTitle,
        },
{
    let title = match item.metadata.get("title") {
        Some(t) => t,
        None => {
            return Err(LoadError::MissingTitle);
        },
    };
    let sum_src = summary_source(item.markdown.as_str());
    let summary = to_html(sum_src.as_str());
    let content = to_html(item.markdown.as_str());
    let url = item.output_path.clone();
    let tags = clone_strings(&item.tags);
    let ld = locale_date(&item.timestamp);
    Ok(Article {
        title,
        url,
        content,
        summary,
        tags,
        timestamp: item.timestamp,
        locale_date: ld,
    })
}

} // verus!
