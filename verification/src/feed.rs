//! The Feed Generator: projects the recent article list into entries with
//! absolute URLs and RFC 2822 timestamps, and serializes them through the
//! RSS and Atom crates.

use vstd::prelude::*;
use vstd::string::*;
use crate::chars::{two_digits, four_digits, push_two_digits, push_four_digits, push_char};
use crate::content::Timestamp;
use crate::article::{Article, weekday_abbrev, weekday_of, day_of_week};

verus! {

#[verifier::external_type_specification]
#[verifier::external_body]
pub struct ExRssItem(rss::Item);

#[verifier::external_type_specification]
#[verifier::external_body]
pub struct ExAtomEntry(atom_syndication::Entry);

/// The abbreviated English month name.
pub open spec fn month_abbrev(m: int) -> Seq<char> {
    if m == 1 { "Jan"@ }
    else if m == 2 { "Feb"@ }
    else if m == 3 { "Mar"@ }
    else if m == 4 { "Apr"@ }
    else if m == 5 { "May"@ }
    else if m == 6 { "Jun"@ }
    else if m == 7 { "Jul"@ }
    else if m == 8 { "Aug"@ }
    else if m == 9 { "Sep"@ }
    else if m == 10 { "Oct"@ }
    else if m == 11 { "Nov"@ }
    else { "Dec"@ }
}

fn push_month_abbrev(s: &mut String, m: u32)
    requires
        1 <= m <= 12,
    ensures
        final(s)@ == old(s)@ + month_abbrev(m as int),
{
    if m == 1 { s.append("Jan") }
    else if m == 2 { s.append("Feb") }
    else if m == 3 { s.append("Mar") }
    else if m == 4 { s.append("Apr") }
    else if m == 5 { s.append("May") }
    else if m == 6 { s.append("Jun") }
    else if m == 7 { s.append("Jul") }
    else if m == 8 { s.append("Aug") }
    else if m == 9 { s.append("Sep") }
    else if m == 10 { s.append("Oct") }
    else if m == 11 { s.append("Nov") }
    else { s.append("Dec") }
}

/// The RFC 2822 rendering of a timestamp taken as UTC, seconds zero:
/// weekday, day without a leading zero, month, four-digit year, clock
/// time and the zero offset.
pub open spec fn rfc2822_seq(ts: Timestamp) -> Seq<char> {
    weekday_abbrev(day_of_week(ts.year as int, ts.month as int, ts.day as int)) + ", "@ + (
    if ts.day < 10 {
        seq![crate::chars::digit_char(ts.day as nat)]
    } else {
        two_digits(ts.day as nat)
    }) + " "@ + month_abbrev(ts.month as int) + " "@ + four_digits(ts.year as nat) + " "@
        + two_digits(ts.hour as nat) + ":"@ + two_digits(ts.minute as nat) + ":00 +0000"@
}

/// Formats a timestamp as RFC 2822, as [`rfc2822_seq`] describes. The
/// format is defined for years up to four digits only.
pub fn rfc2822(ts: &Timestamp) -> (r: String)
    requires
        ts.valid(),
        0 <= ts.year <= 9999,
    ensures
        r@ == rfc2822_seq(*ts),
{
    let w = weekday_of(ts);
    let mut out = String::new();
    crate::article::push_weekday_abbrev(&mut out, w);
    out.append(", ");
    if ts.day < 10 {
        push_char(&mut out, crate::chars::digit_to_char(ts.day as u64));
    } else {
        push_two_digits(&mut out, ts.day as u64);
    }
    out.append(" ");
    push_month_abbrev(&mut out, ts.month);
    out.append(" ");
    push_four_digits(&mut out, ts.year as u64);
    out.append(" ");
    push_two_digits(&mut out, ts.hour as u64);
    out.append(":");
    push_two_digits(&mut out, ts.minute as u64);
    out.append(":00 +0000");
    proof {
        assert(out@ =~= rfc2822_seq(*ts));
    }
    out
}

/// A relative url joined onto the site url: an absolute path stands
/// alone, otherwise the two are joined with exactly one separating slash.
pub open spec fn join_url(base: Seq<char>, rel: Seq<char>) -> Seq<char> {
    if rel.len() > 0 && rel.first() == '/' {
        rel
    } else if base.len() == 0 {
        rel
    } else if base.last() == '/' {
        base + rel
    } else {
        base + "/"@ + rel
    }
}

/// Joins two url pieces, as [`join_url`] describes.
pub fn join_url_exec(base: &str, rel: &str) -> (r: String)
    ensures
        r@ == join_url(base@, rel@),
{
    let bn = base.unicode_len();
    let rn = rel.unicode_len();
    if rn > 0 && rel.get_char(0) == '/' {
        rel.to_owned()
    } else if bn == 0 {
        rel.to_owned()
    } else if base.get_char(bn - 1) == '/' {
        let mut out = base.to_owned();
        out.append(rel);
        out
    } else {
        let mut out = base.to_owned();
        out.append("/");
        out.append(rel);
        proof {
            assert(out@ =~= base@ + "/"@ + rel@);
        }
        out
    }
}

/// One feed entry: the projection both feed formats share.
pub struct FeedEntry {
    pub title: String,
    pub url: String,
    pub summary: String,
    pub pub_date: String,
    pub timestamp: Timestamp,
}

/// Projects up to `max` articles into feed entries, as the field-wise
/// clauses describe: the url is made absolute against `siteurl` and the
/// publish date rendered as RFC 2822.
pub fn feed_entries(articles: &Vec<Article>, siteurl: &str, max: usize) -> (r: Vec<FeedEntry>)
    requires
        forall|k: int| 0 <= k < articles@.len() ==> (#[trigger] articles@[k].timestamp).valid()
            && 0 <= articles@[k].timestamp.year <= 9999,
    ensures
        r@.len() == if max <= articles@.len() {
            max as int
        } else {
            articles@.len() as int
        },
        forall|k: int| 0 <= k < r@.len() ==> {
            &&& (#[trigger] r@[k]).title@ == articles@[k].title@
            &&& r@[k].url@ == join_url(siteurl@, articles@[k].url@)
            &&& r@[k].summary@ == articles@[k].summary@
            &&& r@[k].pub_date@ == rfc2822_seq(articles@[k].timestamp)
            &&& r@[k].timestamp == articles@[k].timestamp
        },
{
    let n = if max <= articles.len() {
        max
    } else {
        articles.len()
    };
    let mut out: Vec<FeedEntry> = Vec::new();
    let mut i: usize = 0;
    while i < n
        invariant
            i <= n,
            n == if max <= articles@.len() {
                max as int
            } else {
                articles@.len() as int
            },
            n <= articles@.len(),
            out@.len() == i,
            forall|k: int| 0 <= k < articles@.len() ==> (#[trigger] articles@[k].timestamp).valid()
                && 0 <= articles@[k].timestamp.year <= 9999,
            forall|k: int| 0 <= k < i ==> {
                &&& (#[trigger] out@[k]).title@ == articles@[k].title@
                &&& out@[k].url@ == join_url(siteurl@, articles@[k].url@)
                &&& out@[k].summary@ == articles@[k].summary@
                &&& out@[k].pub_date@ == rfc2822_seq(articles@[k].timestamp)
                &&& out@[k].timestamp == articles@[k].timestamp
            },
        decreases n - i,
    {
        let a = &articles[i];
        let entry = FeedEntry {
            title: a.title.clone(),
            url: join_url_exec(siteurl, a.url.as_str()),
            summary: a.summary.clone(),
            pub_date: rfc2822(&a.timestamp),
            timestamp: a.timestamp,
        };
        out.push(entry);
        i = i + 1;
    }
    out
}

/// The fields of each entry that the RSS serialization depends on:
/// title, absolute url, summary and the rendered publish date.
pub open spec fn rss_entries_view(s: Seq<FeedEntry>) -> Seq<(Seq<char>, Seq<char>, Seq<char>, Seq<char>)> {
    s.map_values(|e: FeedEntry| (e.title@, e.url@, e.summary@, e.pub_date@))
}

/// The fields of each entry that the Atom serialization depends on:
/// title, absolute url, summary and the publish timestamp.
pub open spec fn atom_entries_view(s: Seq<FeedEntry>) -> Seq<(Seq<char>, Seq<char>, Seq<char>, Timestamp)> {
    s.map_values(|e: FeedEntry| (e.title@, e.url@, e.summary@, e.timestamp))
}

/// What the RSS crate serializes for a channel with the given site name
/// as title, site url as link, build date, and items built from the
/// entries in order — each item carrying its entry's title, summary as
/// description, publish date, the shared author, and the url as both link
/// and guid. The result depends on these arguments alone.
pub uninterp spec fn rss_xml_of(
    entries: Seq<(Seq<char>, Seq<char>, Seq<char>, Seq<char>)>,
    sitename: Seq<char>,
    siteurl: Seq<char>,
    author: Seq<char>,
    build_date: Seq<char>,
) -> Seq<char>;

/// What the Atom crate serializes for a feed with the given site name as
/// title, site url as id and link, author, update moment, and entries in
/// order — each entry carrying its title, the url as both id and link,
/// an HTML summary, the author, and its timestamp (taken as UTC) as
/// `updated`. The result depends on these arguments alone.
pub uninterp spec fn atom_xml_of(
    entries: Seq<(Seq<char>, Seq<char>, Seq<char>, Timestamp)>,
    sitename: Seq<char>,
    siteurl: Seq<char>,
    author: Seq<char>,
    updated: Timestamp,
    updated_second: int,
) -> Seq<char>;

/// Relies on `rss::ItemBuilder` and `rss::GuidBuilder`: builds an item
/// holding exactly the given fields — the entry's title, summary as
/// description and publish date, the shared author, and the entry's url
/// as both link and guid value.
#[verifier::external_body]
fn rss_item(e: &FeedEntry, author: &str) -> rss::Item {
    rss::ItemBuilder::default()
        .title(e.title.clone())
        .link(e.url.clone())
        .author(author.to_owned())
        .description(e.summary.clone())
        .pub_date(e.pub_date.clone())
        .guid(rss::GuidBuilder::default().value(e.url.clone()).build())
        .build()
}

/// Relies on `rss::ChannelBuilder` and the channel's XML rendering, with
/// the items built by [`rss_item`]: serializes the channel that
/// [`rss_xml_of`] names, a pure function of the fields handed in.
#[verifier::external_body]
fn rss_channel_xml(entries: &Vec<FeedEntry>, sitename: &str, siteurl: &str, author: &str, build_date: &str) -> (r: String)
    ensures
        r@ == rss_xml_of(rss_entries_view(entries@), sitename@, siteurl@, author@, build_date@),
{
    let items: Vec<rss::Item> = entries.iter().map(|e| rss_item(e, author)).collect();
    rss::ChannelBuilder::default()
        .title(sitename.to_owned())
        .link(siteurl.to_owned())
        .last_build_date(build_date.to_owned())
        .items(items)
        .build()
        .to_string()
}

/// Relies on the `atom_syndication` builders: an entry whose id and link
/// are the url, with an HTML summary and the timestamp taken as UTC. The
/// year bound keeps the date inside chrono's constructible range.
#[verifier::external_body]
fn atom_entry(e: &FeedEntry, author: &str) -> atom_syndication::Entry
    requires
        e.timestamp.is_real(),
        0 <= e.timestamp.year <= 9999,
{
    let d = chrono::NaiveDate::from_ymd_opt(e.timestamp.year, e.timestamp.month, e.timestamp.day)
        .unwrap()
        .and_hms_opt(e.timestamp.hour, e.timestamp.minute, 0)
        .unwrap()
        .and_utc();
    atom_syndication::EntryBuilder::default()
        .title(e.title.clone())
        .id(e.url.clone())
        .updated(d)
        .author(atom_syndication::PersonBuilder::default().name(author.to_owned()).build())
        .link(atom_syndication::LinkBuilder::default().href(e.url.clone()).build())
        .summary(atom_syndication::Text::html(e.summary.clone()))
        .build()
}

/// Relies on `atom_syndication::FeedBuilder` and the feed's XML
/// rendering, with the entries built by [`atom_entry`]: serializes the
/// feed that [`atom_xml_of`] names, a pure function of the fields handed
/// in. The update moment is constructed from the given timestamp and
/// second; its year bound keeps it inside chrono's constructible range.
#[verifier::external_body]
fn atom_feed_xml(entries: &Vec<FeedEntry>, sitename: &str, siteurl: &str, author: &str, now: &Timestamp, now_second: u32) -> (r: String)
    requires
        forall|k: int| 0 <= k < entries@.len() ==> (#[trigger] entries@[k].timestamp).is_real()
            && 0 <= entries@[k].timestamp.year <= 9999,
        now.is_real(),
        0 <= now.year <= 9999,
        now_second < 60,
    ensures
        r@ == atom_xml_of(
            atom_entries_view(entries@),
            sitename@,
            siteurl@,
            author@,
            *now,
            now_second as int,
        ),
{
    let es: Vec<atom_syndication::Entry> = entries.iter().map(|e| atom_entry(e, author)).collect();
    let day = chrono::NaiveDate::from_ymd_opt(now.year, now.month, now.day).unwrap();
    let upd = day.and_hms_opt(now.hour, now.minute, now_second).unwrap().and_utc();
    atom_syndication::FeedBuilder::default()
        .title(sitename.to_owned())
        .id(siteurl.to_owned())
        .updated(upd)
        .author(atom_syndication::PersonBuilder::default().name(author.to_owned()).build())
        .link(atom_syndication::LinkBuilder::default().href(siteurl.to_owned()).build())
        .entries(es)
        .build()
        .to_string()
}

/// Serializes the entries as an RSS 2.0 channel, as [`rss_xml_of`]
/// describes: the site name as channel title, the site url as link, the
/// given build date, and one item per entry in order, each item's guid
/// equal to its absolute url. The caller supplies the build date, so the
/// result is a function of the arguments.
pub fn rss_feed(entries: &Vec<FeedEntry>, sitename: &str, siteurl: &str, author: &str, build_date: &str) -> (r: String)
    ensures
        r@ == rss_xml_of(rss_entries_view(entries@), sitename@, siteurl@, author@, build_date@),
{
    rss_channel_xml(entries, sitename, siteurl, author, build_date)
}

/// Serializes the entries as an Atom feed, as [`atom_xml_of`] describes:
/// the site name as feed title, the site url as id and link, the given
/// update moment, and one entry per feed entry in order, each entry's id
/// and link equal to its absolute url and its `updated` the publish
/// timestamp. The caller supplies the update moment, so the result is a
/// function of the arguments.
pub fn atom_feed(entries: &Vec<FeedEntry>, sitename: &str, siteurl: &str, author: &str, now: &Timestamp, now_second: u32) -> (r: String)
    requires
        forall|k: int| 0 <= k < entries@.len() ==> (#[trigger] entries@[k].timestamp).is_real()
            && 0 <= entries@[k].timestamp.year <= 9999,
        now.is_real(),
        0 <= now.year <= 9999,
        now_second < 60,
    ensures
        r@ == atom_xml_of(
            atom_entries_view(entries@),
            sitename@,
            siteurl@,
            author@,
            *now,
            now_second as int,
        ),
{
    atom_feed_xml(entries, sitename, siteurl, author, now, now_second)
}

} // verus!
