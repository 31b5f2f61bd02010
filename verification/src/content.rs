//! Content records: load errors, publication status, timestamps and the
//! front-matter metadata mapping.

use vstd::prelude::*;
use vstd::string::*;
use crate::chars::{lower_char, to_lower_char, push_char};

verus! {

/// Why loading a content file failed. Every variant is fatal: the caller
/// aborts the build.
#[derive(PartialEq, Eq, Structural, Clone, Copy, Debug)]
pub enum LoadError {
    /// No blank line separates the metadata block from the body.
    MissingSeparator,
    /// A metadata line has no `": "` between key and value.
    BadDelimiter,
    /// The metadata has no `title` key.
    MissingTitle,
    /// The metadata has no `date` key.
    MissingDate,
    /// The `date` value does not parse as `%Y-%m-%d` or `%Y-%m-%d %H:%M`.
    BadDate,
    /// The `status` value is not `public`, `draft` or `hidden`.
    BadStatus,
}

impl LoadError {
    /// A short description for diagnostics.
    pub fn describe(&self) -> &'static str {
        match self {
            LoadError::MissingSeparator => "front matter must be separated from the body by a blank line",
            LoadError::BadDelimiter => "metadata lines must be ': ' delimited",
            LoadError::MissingTitle => "metadata must have a title",
            LoadError::MissingDate => "metadata must have a date",
            LoadError::BadDate => "date must be '%Y-%m-%d' with an optional ' %H:%M'",
            LoadError::BadStatus => "status must be public, draft or hidden",
        }
    }
}

/// Visibility of one piece of content.
#[derive(PartialEq, Eq, Structural, Clone, Copy, Debug)]
pub enum ContentStatus {
    Public,
    Draft,
    Hidden,
}

/// Case folding of a whole character sequence, ASCII letters only.
pub open spec fn lower_seq(s: Seq<char>) -> Seq<char> {
    s.map_values(|c: char| lower_char(c))
}

/// Lower-cases the ASCII letters of `s`.
pub fn lower_string(s: &str) -> (r: String)
    ensures
        r@ == lower_seq(s@),
{
    let n = s.unicode_len();
    let mut out = String::new();
    let mut i: usize = 0;
    while i < n
        invariant
            i <= n,
            n as nat == s@.len(),
            out@ == lower_seq(s@).subrange(0, i as int),
        decreases n - i,
    {
        push_char(&mut out, to_lower_char(s.get_char(i)));
        proof {
            assert(out@ =~= lower_seq(s@).subrange(0, i + 1 as int));
        }
        i = i + 1;
    }
    proof {
        assert(out@ =~= lower_seq(s@));
    }
    out
}

/// Exec equality of two string slices, at the level of their character
/// sequences.
pub fn str_eq(a: &str, b: &str) -> (r: bool)
    ensures
        r == (a@ == b@),
{
    let an = a.unicode_len();
    let bn = b.unicode_len();
    if an != bn {
        return false;
    }
    let mut i: usize = 0;
    while i < an
        invariant
            i <= an,
            an as nat == a@.len(),
            bn as nat == b@.len(),
            an == bn,
            forall|j: int| 0 <= j < i ==> a@[j] == b@[j],
        decreases an - i,
    {
        if a.get_char(i) != b.get_char(i) {
            return false;
        }
        i = i + 1;
    }
    proof {
        assert(a@ =~= b@);
    }
    true
}

/// The status a status string denotes, after ASCII case folding; `None`
/// for an unrecognized string.
pub open spec fn status_of(s: Seq<char>) -> Option<ContentStatus> {
    if lower_seq(s) == "public"@ {
        Some(ContentStatus::Public)
    } else if lower_seq(s) == "draft"@ {
        Some(ContentStatus::Draft)
    } else if lower_seq(s) == "hidden"@ {
        Some(ContentStatus::Hidden)
    } else {
        None
    }
}

/// Parses a status string, as [`status_of`] describes.
pub fn parse_status(s: &str) -> (r: Option<ContentStatus>)
    ensures
        r == status_of(s@),
{
    let lowered = lower_string(s);
    if str_eq(lowered.as_str(), "public") {
        Some(ContentStatus::Public)
    } else if str_eq(lowered.as_str(), "draft") {
        Some(ContentStatus::Draft)
    } else if str_eq(lowered.as_str(), "hidden") {
        Some(ContentStatus::Hidden)
    } else {
        None
    }
}

/// A calendar timestamp with minute precision, as the front-matter `date`
/// key provides it.
#[derive(PartialEq, Eq, Structural, Clone, Copy, Debug)]
pub struct Timestamp {
    pub year: i32,
    pub month: u32,
    pub day: u32,
    pub hour: u32,
    pub minute: u32,
}

impl Timestamp {
    /// Field ranges guaranteed for every parsed timestamp.
    pub open spec fn valid(self) -> bool {
        &&& -300000 <= self.year <= 300000
        &&& 1 <= self.month <= 12
        &&& 1 <= self.day <= 31
        &&& self.hour < 24
        &&& self.minute < 60
    }

    /// The timestamp names a day that exists in the proleptic Gregorian
    /// calendar.
    pub open spec fn is_real(self) -> bool {
        self.valid() && self.day <= days_in_month(self.year as int, self.month as int)
    }

    /// Lexicographic order on (year, month, day, hour, minute).
    pub open spec fn spec_le(self, other: Timestamp) -> bool {
        if self.year != other.year {
            self.year < other.year
        } else if self.month != other.month {
            self.month < other.month
        } else if self.day != other.day {
            self.day < other.day
        } else if self.hour != other.hour {
            self.hour < other.hour
        } else {
            self.minute <= other.minute
        }
    }

    /// Exec counterpart of [`Timestamp::spec_le`].
    pub fn le(&self, other: &Timestamp) -> (r: bool)
        ensures
            r == self.spec_le(*other),
    {
        if self.year != other.year {
            self.year < other.year
        } else if self.month != other.month {
            self.month < other.month
        } else if self.day != other.day {
            self.day < other.day
        } else if self.hour != other.hour {
            self.hour < other.hour
        } else {
            self.minute <= other.minute
        }
    }
}

/// A leap year of the proleptic Gregorian calendar; the year is shifted
/// by a multiple of the 400-year cycle so the remainders are taken on a
/// positive number.
pub open spec fn is_leap_year(y: int) -> bool {
    let z = y + 400000;
    z % 4 == 0 && (z % 100 != 0 || z % 400 == 0)
}

/// The length of a month in the proleptic Gregorian calendar.
pub open spec fn days_in_month(y: int, m: int) -> int {
    if m == 2 {
        if is_leap_year(y) {
            29
        } else {
            28
        }
    } else if m == 4 || m == 6 || m == 9 || m == 11 {
        30
    } else {
        31
    }
}

/// Exec counterpart of [`Timestamp::is_real`].
pub fn real_date(ts: &Timestamp) -> (r: bool)
    ensures
        r == ts.is_real(),
{
    let ok_ranges = -300000 <= ts.year && ts.year <= 300000 && 1 <= ts.month && ts.month <= 12
        && 1 <= ts.day && ts.day <= 31 && ts.hour < 24 && ts.minute < 60;
    if !ok_ranges {
        return false;
    }
    let z: u32 = ((ts.year as i64) + 400000) as u32;
    let dim: u32 = if ts.month == 2 {
        if z % 4 == 0 && (z % 100 != 0 || z % 400 == 0) {
            29
        } else {
            28
        }
    } else if ts.month == 4 || ts.month == 6 || ts.month == 9 || ts.month == 11 {
        30
    } else {
        31
    };
    ts.day <= dim
}

/// What `NaiveDateTime::parse_from_str` yields on a given string with the
/// format `%Y-%m-%d %H:%M`; the result depends on the string alone.
pub uninterp spec fn chrono_parse_ymdhm(s: Seq<char>) -> Option<Timestamp>;

/// Relies on `chrono::NaiveDateTime::parse_from_str` with the fixed format
/// `"%Y-%m-%d %H:%M"`: parses a calendar date and clock time, rejecting
/// invalid dates; the field ranges follow chrono's documented invariants
/// for `Datelike` and `Timelike` values.
#[verifier::external_body]
pub fn parse_datetime(s: &str) -> (r: Option<Timestamp>)
    ensures
        r == chrono_parse_ymdhm(s@),
        r matches Some(t) ==> t.valid() && t.is_real(),
{
    match chrono::NaiveDateTime::parse_from_str(s, "%Y-%m-%d %H:%M") {
        Ok(dt) => Some(Timestamp {
            year: chrono::Datelike::year(&dt),
            month: chrono::Datelike::month(&dt),
            day: chrono::Datelike::day(&dt),
            hour: chrono::Timelike::hour(&dt),
            minute: chrono::Timelike::minute(&dt),
        }),
        Err(_) => None,
    }
}

/// The mapping denoted by an association list, later entries overwriting
/// earlier ones.
pub open spec fn map_of(pairs: Seq<(Seq<char>, Seq<char>)>) -> Map<Seq<char>, Seq<char>>
    decreases pairs.len(),
{
    if pairs.len() == 0 {
        Map::empty()
    } else {
        map_of(pairs.drop_last()).insert(pairs.last().0, pairs.last().1)
    }
}

/// The views of a vector of key/value pairs.
pub open spec fn pairs_view(v: Seq<(String, String)>) -> Seq<(Seq<char>, Seq<char>)> {
    v.map_values(|p: (String, String)| (p.0@, p.1@))
}

/// The front-matter metadata of one content file: lower-cased keys mapped
/// to raw values.
#[derive(Debug)]
pub struct Metadata {
    pub pairs: Vec<(String, String)>,
}

impl View for Metadata {
    type V = Map<Seq<char>, Seq<char>>;

    open spec fn view(&self) -> Map<Seq<char>, Seq<char>> {
        map_of(pairs_view(self.pairs@))
    }
}

proof fn lemma_map_of_found(pairs: Seq<(Seq<char>, Seq<char>)>, k: Seq<char>, i: int)
    requires
        0 <= i < pairs.len(),
        pairs[i].0 == k,
        forall|j: int| i < j < pairs.len() ==> #[trigger] pairs[j].0 != k,
    ensures
        map_of(pairs).contains_key(k),
        map_of(pairs)[k] == pairs[i].1,
    decreases pairs.len(),
{
    if i == pairs.len() - 1 {
    } else {
        lemma_map_of_found(pairs.drop_last(), k, i);
    }
}

proof fn lemma_map_of_missing(pairs: Seq<(Seq<char>, Seq<char>)>, k: Seq<char>)
    requires
        forall|j: int| 0 <= j < pairs.len() ==> #[trigger] pairs[j].0 != k,
    ensures
        !map_of(pairs).contains_key(k),
    decreases pairs.len(),
{
    if pairs.len() > 0 {
        lemma_map_of_missing(pairs.drop_last(), k);
    }
}

impl Metadata {
    /// Looks `key` up in the mapping; for duplicate keys the last entry
    /// wins, matching the mapping's view.
    pub fn get(&self, key: &str) -> (r: Option<String>)
        ensures
            match r {
                Some(v) => self@.contains_key(key@) && self@[key@] == v@,
                None => !self@.contains_key(key@),
            },
    {
        let mut i: usize = self.pairs.len();
        while i > 0
            invariant
                i <= self.pairs@.len(),
                forall|j: int| i <= j < self.pairs@.len()
                    ==> #[trigger] pairs_view(self.pairs@)[j].0 != key@,
            decreases i,
        {
            i = i - 1;
            if str_eq(self.pairs[i].0.as_str(), key) {
                let v = self.pairs[i].1.clone();
                proof {
                    lemma_map_of_found(pairs_view(self.pairs@), key@, i as int);
                }
                return Some(v);
            }
        }
        proof {
            lemma_map_of_missing(pairs_view(self.pairs@), key@);
        }
        None
    }

    /// Whether `key` is present.
    pub fn has(&self, key: &str) -> (r: bool)
        ensures
            r == self@.contains_key(key@),
    {
        match self.get(key) {
            Some(_) => true,
            None => false,
        }
    }
}

/// One loaded markdown content file.
#[derive(Debug)]
pub struct ContentItem {
    /// Output path relative to the site root, without a file extension.
    pub output_path: String,
    /// The markdown body, everything after the front matter.
    pub markdown: String,
    /// The parsed front-matter mapping.
    pub metadata: Metadata,
    /// The parsed `date` value.
    pub timestamp: Timestamp,
    /// The resolved `status` value, `Public` when absent.
    pub status: ContentStatus,
    /// The parsed `tags` value, in order of appearance.
    pub tags: Vec<String>,
}

} // verus!
