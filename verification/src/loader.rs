//! The Content Loader's pure parts: file classification, slug derivation,
//! tag splitting and output-path computation.

use vstd::prelude::*;
use vstd::string::*;
use crate::chars::{
    lower_char, is_ascii_ws, push_char, two_digits, dec_digits, push_two_digits,
    push_four_digits, four_digits, u64_to_string,
};
use crate::content::{
    Timestamp, Metadata, ContentItem, ContentStatus, LoadError, lower_seq, lower_string,
    map_of, pairs_view, chrono_parse_ymdhm, parse_datetime, parse_status, status_of, str_eq,
};
use crate::text::{
    split_at_char, split_string, pieces_view, pair_at, first_pair, find_pair, contains_char,
};

verus! {

/// What `char::is_alphanumeric` returns; the result depends on the
/// character alone.
pub uninterp spec fn unicode_alnum(c: char) -> bool;

/// Relies on `char::is_alphanumeric`: true for Unicode letters and
/// numbers; on the ASCII range those are exactly the letters and digits.
#[verifier::external_body]
pub fn char_is_alphanumeric(c: char) -> (r: bool)
    ensures
        r == unicode_alnum(c),
        (c as u32) < 128 ==> r == (('a' <= c && c <= 'z') || ('A' <= c && c <= 'Z') || ('0' <= c
            && c <= '9')),
{
    c.is_alphanumeric()
}

/// What `char::is_whitespace` returns; the result depends on the
/// character alone.
pub uninterp spec fn unicode_ws(c: char) -> bool;

/// Relies on `char::is_whitespace`: true for Unicode `White_Space`
/// characters; on the ASCII range those are the space and the five
/// control characters from tab to carriage return.
#[verifier::external_body]
pub fn char_is_whitespace(c: char) -> (r: bool)
    ensures
        r == unicode_ws(c),
        (c as u32) < 128 ==> r == (c == ' ' || ('\t' <= c && c <= '\r')),
{
    c.is_whitespace()
}

/// A slug keeps the alphanumeric and ASCII-whitespace characters.
pub open spec fn slug_keeps(c: char) -> bool {
    unicode_alnum(c) || is_ascii_ws(c)
}

/// Each kept character, lower-cased, with spaces turned into hyphens.
pub open spec fn slug_map(c: char) -> char {
    if c == ' ' {
        '-'
    } else {
        lower_char(c)
    }
}

/// The slug of a title: the kept characters in order, mapped by
/// [`slug_map`].
pub open spec fn slug_seq(t: Seq<char>) -> Seq<char>
    decreases t.len(),
{
    if t.len() == 0 {
        Seq::empty()
    } else if slug_keeps(t.last()) {
        slug_seq(t.drop_last()) + seq![slug_map(t.last())]
    } else {
        slug_seq(t.drop_last())
    }
}

/// Derives the slug of `title`, as [`slug_seq`] describes.
pub fn slug_of(title: &str) -> (r: String)
    ensures
        r@ == slug_seq(title@),
{
    let n = title.unicode_len();
    let mut out = String::new();
    let mut i: usize = 0;
    while i < n
        invariant
            i <= n,
            n as nat == title@.len(),
            out@ == slug_seq(title@.subrange(0, i as int)),
        decreases n - i,
    {
        let c = title.get_char(i);
        let ghost pre = title@.subrange(0, i as int);
        let ghost cur = title@.subrange(0, i + 1 as int);
        proof {
            assert(cur.drop_last() =~= pre);
            assert(cur.last() == c);
        }
        if char_is_alphanumeric(c) || crate::chars::char_is_ascii_ws(c) {
            if c == ' ' {
                push_char(&mut out, '-');
            } else {
                push_char(&mut out, crate::chars::to_lower_char(c));
            }
        }
        i = i + 1;
    }
    proof {
        assert(title@.subrange(0, title@.len() as int) =~= title@);
    }
    out
}

/// `s` with leading Unicode whitespace dropped.
pub open spec fn trim_start_seq(s: Seq<char>) -> Seq<char>
    decreases s.len(),
{
    if s.len() > 0 && unicode_ws(s.first()) {
        trim_start_seq(s.subrange(1, s.len() as int))
    } else {
        s
    }
}

/// `s` with trailing Unicode whitespace dropped.
pub open spec fn trim_end_seq(s: Seq<char>) -> Seq<char>
    decreases s.len(),
{
    if s.len() > 0 && unicode_ws(s.last()) {
        trim_end_seq(s.drop_last())
    } else {
        s
    }
}

/// `s` trimmed on both sides, as `str::trim` does.
pub open spec fn trim_seq(s: Seq<char>) -> Seq<char> {
    trim_end_seq(trim_start_seq(s))
}

proof fn lemma_trim_start_skip(s: Seq<char>, k: int)
    requires
        0 <= k <= s.len(),
        forall|j: int| 0 <= j < k ==> unicode_ws(s[j]),
        k < s.len() ==> !unicode_ws(s[k]),
    ensures
        trim_start_seq(s) == s.subrange(k, s.len() as int),
    decreases k,
{
    if k == 0 {
        assert(s.subrange(0, s.len() as int) =~= s);
    } else {
        let u = s.subrange(1, s.len() as int);
        lemma_trim_start_skip(u, k - 1);
        assert(u.subrange(k - 1, u.len() as int) =~= s.subrange(k, s.len() as int));
    }
}

proof fn lemma_trim_end_skip(s: Seq<char>, k: int)
    requires
        0 <= k <= s.len(),
        forall|j: int| k <= j < s.len() ==> unicode_ws(s[j]),
        k > 0 ==> !unicode_ws(s[k - 1]),
    ensures
        trim_end_seq(s) == s.subrange(0, k),
    decreases s.len() - k,
{
    if k == s.len() {
        assert(s.subrange(0, s.len() as int) =~= s);
    } else {
        lemma_trim_end_skip(s.drop_last(), k);
        assert(s.drop_last().subrange(0, k) =~= s.subrange(0, k));
    }
}

/// Trims `s` on both sides, as [`trim_seq`] describes.
pub fn trim(s: &str) -> (r: String)
    ensures
        r@ == trim_seq(s@),
{
    let n = s.unicode_len();
    let mut lo: usize = 0;
    while lo < n && char_is_whitespace(s.get_char(lo))
        invariant
            lo <= n,
            n as nat == s@.len(),
            forall|j: int| 0 <= j < lo ==> unicode_ws(s@[j]),
        decreases n - lo,
    {
        lo = lo + 1;
    }
    proof {
        lemma_trim_start_skip(s@, lo as int);
    }
    let ghost t = trim_start_seq(s@);
    let mut hi: usize = n;
    while hi > lo && char_is_whitespace(s.get_char(hi - 1))
        invariant
            lo <= hi <= n,
            n as nat == s@.len(),
            t == s@.subrange(lo as int, n as int),
            forall|j: int| hi <= j < n ==> unicode_ws(s@[j]),
        decreases hi,
    {
        hi = hi - 1;
    }
    proof {
        assert(forall|j: int| hi - lo <= j < t.len() ==> unicode_ws(t[j]));
        assert(hi > lo ==> t[hi - lo - 1] == s@[hi - 1]);
        lemma_trim_end_skip(t, hi - lo);
        assert(t.subrange(0, hi - lo) =~= s@.subrange(lo as int, hi as int));
    }
    s.substring_char(lo, hi).to_owned()
}

/// The tag list denoted by already-split comma pieces: each piece trimmed,
/// empty results dropped.
pub open spec fn tags_from(pieces: Seq<Seq<char>>) -> Seq<Seq<char>>
    decreases pieces.len(),
{
    if pieces.len() == 0 {
        Seq::empty()
    } else if trim_seq(pieces.last()).len() > 0 {
        tags_from(pieces.drop_last()) + seq![trim_seq(pieces.last())]
    } else {
        tags_from(pieces.drop_last())
    }
}

/// The tags denoted by a `tags` metadata value: split on commas, trimmed,
/// empty pieces dropped.
pub open spec fn tags_of(v: Seq<char>) -> Seq<Seq<char>> {
    tags_from(split_at_char(v, ','))
}

/// Parses a tag list, as [`tags_of`] describes.
pub fn parse_tags(v: &str) -> (r: Vec<String>)
    ensures
        pieces_view(r@) == tags_of(v@),
{
    let pieces = split_string(v, ',');
    let mut tags: Vec<String> = Vec::new();
    let mut i: usize = 0;
    proof {
        assert(pieces_view(pieces@).subrange(0, 0) =~= Seq::<Seq<char>>::empty());
        assert(tags_from(Seq::<Seq<char>>::empty()) =~= Seq::<Seq<char>>::empty());
        assert(pieces_view(tags@) =~= tags_from(pieces_view(pieces@).subrange(0, 0)));
    }
    while i < pieces.len()
        invariant
            i <= pieces@.len(),
            pieces_view(tags@) == tags_from(pieces_view(pieces@).subrange(0, i as int)),
        decreases pieces@.len() - i,
    {
        let t = trim(pieces[i].as_str());
        let ghost cur = pieces_view(pieces@).subrange(0, i + 1 as int);
        proof {
            assert(cur.drop_last() =~= pieces_view(pieces@).subrange(0, i as int));
            assert(cur.last() == pieces@[i as int]@);
        }
        if t.as_str().unicode_len() > 0 {
            proof {
                assert(pieces_view(tags@.push(t)) =~= pieces_view(tags@) + seq![t@]);
            }
            tags.push(t);
        }
        i = i + 1;
    }
    proof {
        assert(pieces_view(pieces@).subrange(0, pieces@.len() as int) =~= pieces_view(pieces@));
    }
    tags
}

/// How the loader treats a file, by its name.
#[derive(PartialEq, Eq, Structural, Clone, Copy, Debug)]
pub enum FileClass {
    /// A markdown content file, parsed for front matter.
    Markdown,
    /// Silently skipped: `.py` files and files without an extension.
    Ignored,
    /// Copied through as a static asset.
    StaticAsset,
}

/// The position after the last `'.'` of `name`, if any.
pub open spec fn last_dot(name: Seq<char>) -> Option<int>
    decreases name.len(),
{
    if name.len() == 0 {
        None
    } else if name.last() == '.' {
        Some(name.len() - 1)
    } else {
        last_dot(name.drop_last())
    }
}

/// The extension of a file name: what follows the last dot, unless the
/// dot is the leading character or there is none.
pub open spec fn ext_of(name: Seq<char>) -> Option<Seq<char>> {
    match last_dot(name) {
        None => None,
        Some(p) => if p == 0 {
            None
        } else {
            Some(name.subrange(p + 1, name.len() as int))
        },
    }
}

/// The classification of a file name: markdown extensions are content,
/// `py` files and extension-less files are skipped, the rest are assets.
pub open spec fn classify_spec(name: Seq<char>) -> FileClass {
    match ext_of(name) {
        None => FileClass::Ignored,
        Some(e) => if e == "md"@ || e == "markdown"@ {
            FileClass::Markdown
        } else if e == "py"@ {
            FileClass::Ignored
        } else {
            FileClass::StaticAsset
        },
    }
}

/// Classifies a file name, as [`classify_spec`] describes.
pub fn classify(name: &str) -> (r: FileClass)
    ensures
        r == classify_spec(name@),
{
    let n = name.unicode_len();
    let mut i: usize = n;
    proof {
        assert(name@.subrange(0, n as int) =~= name@);
    }
    while i > 0 && name.get_char(i - 1) != '.'
        invariant
            i <= n,
            n as nat == name@.len(),
            last_dot(name@) == last_dot(name@.subrange(0, i as int)),
        decreases i,
    {
        proof {
            assert(name@.subrange(0, i as int).drop_last() =~= name@.subrange(0, i - 1 as int));
        }
        i = i - 1;
    }
    if i == 0 {
        proof {
            assert(name@.subrange(0, 0) =~= Seq::<char>::empty());
        }
        return FileClass::Ignored;
    }
    proof {
        assert(name@.subrange(0, i as int).last() == name@[i - 1]);
        assert(last_dot(name@) == Some(i - 1 as int));
    }
    if i == 1 {
        return FileClass::Ignored;
    }
    let ext = name.substring_char(i, n);
    if str_eq(ext, "md") || str_eq(ext, "markdown") {
        FileClass::Markdown
    } else if str_eq(ext, "py") {
        FileClass::Ignored
    } else {
        FileClass::StaticAsset
    }
}

/// The output path of a static asset: files directly under the top-level
/// `extra` directory land at the output root; everything else keeps its
/// directory prefix.
pub open spec fn asset_path_spec(prefix: Seq<char>, name: Seq<char>) -> Seq<char> {
    if prefix == "extra"@ || prefix.len() == 0 {
        name
    } else {
        prefix + "/"@ + name
    }
}

/// Computes a static asset's output path, as [`asset_path_spec`]
/// describes.
pub fn asset_output_path(prefix: &str, name: &str) -> (r: String)
    ensures
        r@ == asset_path_spec(prefix@, name@),
{
    if str_eq(prefix, "extra") || prefix.unicode_len() == 0 {
        name.to_owned()
    } else {
        let mut out = prefix.to_owned();
        out.append("/");
        out.append(name);
        proof {
            assert(out@ =~= prefix@ + "/"@ + name@);
        }
        out
    }
}

/// The digits of a year as the `%Y` format writes them: zero-padded to
/// four digits, a sign prepended outside `0..=9999`.
pub open spec fn year_digits(y: int) -> Seq<char> {
    if 0 <= y <= 9999 {
        four_digits(y as nat)
    } else if y > 9999 {
        seq!['+'] + dec_digits(y as nat)
    } else if -9999 <= y {
        seq!['-'] + four_digits((-y) as nat)
    } else {
        seq!['-'] + dec_digits((-y) as nat)
    }
}

/// Appends the `%Y` rendering of `y` to `s`.
pub fn push_year(s: &mut String, y: i32)
    requires
        -300000 <= y <= 300000,
    ensures
        final(s)@ == old(s)@ + year_digits(y as int),
{
    if 0 <= y && y <= 9999 {
        push_four_digits(s, y as u64);
    } else if y > 9999 {
        push_char(s, '+');
        let digits = u64_to_string(y as u64);
        s.append(digits.as_str());
        proof {
            assert(s@ =~= old(s)@ + year_digits(y as int));
        }
    } else if -9999 <= y {
        push_char(s, '-');
        push_four_digits(s, (-y) as u64);
        proof {
            assert(s@ =~= old(s)@ + year_digits(y as int));
        }
    } else {
        push_char(s, '-');
        let digits = u64_to_string((-y) as u64);
        s.append(digits.as_str());
        proof {
            assert(s@ =~= old(s)@ + year_digits(y as int));
        }
    }
}

/// The dated output path of a post: `blog/<YYYY>/<MM>/<DD>/<slug>`.
pub open spec fn blog_path_seq(ts: Timestamp, slug: Seq<char>) -> Seq<char> {
    "blog/"@ + year_digits(ts.year as int) + "/"@ + two_digits(ts.month as nat) + "/"@
        + two_digits(ts.day as nat) + "/"@ + slug
}

/// One front-matter line parsed into a lower-cased key and a raw value,
/// split at the first `": "`.
pub open spec fn parse_line(line: Seq<char>) -> Option<(Seq<char>, Seq<char>)> {
    if exists|i: int| pair_at(line, ':', ' ', i) {
        let p = first_pair(line, ':', ' ');
        Some((lower_seq(line.subrange(0, p)), line.subrange(p + 2, line.len() as int)))
    } else {
        None
    }
}

/// All front-matter lines parsed in order; `None` as soon as one line has
/// no `": "`.
pub open spec fn parse_block(lines: Seq<Seq<char>>) -> Option<Seq<(Seq<char>, Seq<char>)>>
    decreases lines.len(),
{
    if lines.len() == 0 {
        Some(Seq::empty())
    } else {
        match (parse_block(lines.drop_last()), parse_line(lines.last())) {
            (Some(ps), Some(kv)) => Some(ps.push(kv)),
            _ => None,
        }
    }
}

proof fn lemma_parse_block_fails(lines: Seq<Seq<char>>, i: int)
    requires
        0 <= i < lines.len(),
        parse_line(lines[i]) is None,
    ensures
        parse_block(lines) is None,
    decreases lines.len(),
{
    if i < lines.len() - 1 {
        lemma_parse_block_fails(lines.drop_last(), i);
    }
}

/// The mathematical model of one loaded content file.
pub struct ItemSpec {
    pub output_path: Seq<char>,
    pub markdown: Seq<char>,
    pub metadata: Map<Seq<char>, Seq<char>>,
    pub timestamp: Timestamp,
    pub status: ContentStatus,
    pub tags: Seq<Seq<char>>,
}

/// The output path a metadata mapping selects: `save_as` verbatim when
/// present, the bare slug for the `page` layout, and the dated blog path
/// otherwise.
pub open spec fn output_path_spec(md: Map<Seq<char>, Seq<char>>, ts: Timestamp) -> Seq<char> {
    if md.contains_key("save_as"@) {
        md["save_as"@]
    } else {
        let slug = slug_seq(md["title"@]);
        if md.contains_key("layout"@) && md["layout"@] == "page"@ {
            slug
        } else {
            blog_path_seq(ts, slug)
        }
    }
}

/// What loading a content file's text yields: either the parsed record or
/// the first fatal error, checked in this order — blank-line separator,
/// line delimiters, `title`, `date`, date syntax, `status`.
pub open spec fn load_spec(c: Seq<char>) -> Result<ItemSpec, LoadError> {
    if !(exists|i: int| pair_at(c, '\n', '\n', i)) {
        Err(LoadError::MissingSeparator)
    } else {
        let sep = first_pair(c, '\n', '\n');
        let body = c.subrange(sep + 2, c.len() as int);
        match parse_block(split_at_char(c.subrange(0, sep), '\n')) {
            None => Err(LoadError::BadDelimiter),
            Some(ps) => {
                let md = map_of(ps);
                if !md.contains_key("title"@) {
                    Err(LoadError::MissingTitle)
                } else if !md.contains_key("date"@) {
                    Err(LoadError::MissingDate)
                } else {
                    let date = md["date"@];
                    let norm = if exists|j: int| 0 <= j < date.len() && date[j] == ' ' {
                        date
                    } else {
                        date + " 00:00"@
                    };
                    match chrono_parse_ymdhm(norm) {
                        None => Err(LoadError::BadDate),
                        Some(ts) => {
                            let st_s = if md.contains_key("status"@) {
                                md["status"@]
                            } else {
                                "public"@
                            };
                            match status_of(st_s) {
                                None => Err(LoadError::BadStatus),
                                Some(st) => Ok(ItemSpec {
                                    output_path: output_path_spec(md, ts),
                                    markdown: body,
                                    metadata: md,
                                    timestamp: ts,
                                    status: st,
                                    tags: if md.contains_key("tags"@) {
                                        tags_of(md["tags"@])
                                    } else {
                                        Seq::empty()
                                    },
                                }),
                            }
                        },
                    }
                }
            },
        }
    }
}

/// Parses one content file's text, as [`load_spec`] describes: the blank
/// line separates front matter from body, metadata lines are `": "`
/// delimited with case-folded keys, `title` and `date` are required, and
/// the output path follows `save_as`, the layout and the date.
#[verifier::rlimit(100)]
pub fn parse_content(text: &str) -> (r: Result<ContentItem, LoadError>)
    ensures
        match r {
            Ok(item) => load_spec(text@) matches Ok(m) && item.output_path@ == m.output_path
                && item.markdown@ == m.markdown && item.metadata@ == m.metadata
                && item.timestamp == m.timestamp && item.status == m.status
                && pieces_view(item.tags@) == m.tags && item.timestamp.valid(),
            Err(e) => load_spec(text@) == Err::<ItemSpec, LoadError>(e),
        },
{
    let n = text.unicode_len();
    let sep = match find_pair(text, '\n', '\n') {
        None => {
            return Err(LoadError::MissingSeparator);
        },
        Some(i) => i,
    };
    let meta_str = text.substring_char(0, sep);
    let body = text.substring_char(sep + 2, n).to_owned();
    let lines = split_string(meta_str, '\n');
    let ghost lv = pieces_view(lines@);
    let mut pairs: Vec<(String, String)> = Vec::new();
    let mut i: usize = 0;
    proof {
        assert(lv.subrange(0, 0) =~= Seq::<Seq<char>>::empty());
        assert(pairs_view(pairs@) =~= Seq::<(Seq<char>, Seq<char>)>::empty());
    }
    while i < lines.len()
        invariant
            i <= lines@.len(),
            lv == pieces_view(lines@),
            lv == split_at_char(meta_str@, '\n'),
            pair_at(text@, '\n', '\n', sep as int),
            sep as int == first_pair(text@, '\n', '\n'),
            meta_str@ == text@.subrange(0, first_pair(text@, '\n', '\n')),
            parse_block(lv.subrange(0, i as int)) == Some(pairs_view(pairs@)),
        decreases lines@.len() - i,
    {
        let line = &lines[i];
        let ln = line.as_str().unicode_len();
        match find_pair(line.as_str(), ':', ' ') {
            None => {
                proof {
                    assert(parse_line(lv[i as int]) is None);
                    lemma_parse_block_fails(lv, i as int);
                    lemma_load_bad_delimiter(text@, sep as int);
                }
                return Err(LoadError::BadDelimiter);
            },
            Some(p) => {
                let k = lower_string(line.as_str().substring_char(0, p));
                let v = line.as_str().substring_char(p + 2, ln).to_owned();
                proof {
                    let cur = lv.subrange(0, i + 1 as int);
                    assert(cur.drop_last() =~= lv.subrange(0, i as int));
                    assert(cur.last() == lv[i as int]);
                    assert(parse_line(lv[i as int]) == Some((k@, v@)));
                    assert(pairs_view(pairs@.push((k, v))) =~= pairs_view(pairs@).push((k@, v@)));
                }
                pairs.push((k, v));
            },
        }
        i = i + 1;
    }
    proof {
        assert(lv.subrange(0, lv.len() as int) =~= lv);
    }
    let metadata = Metadata { pairs };
    let ghost md = metadata@;
    proof {
        assert(parse_block(split_at_char(text@.subrange(0, first_pair(text@, '\n', '\n')), '\n'))
            == Some(pairs_view(metadata.pairs@)));
    }
    if !metadata.has("title") {
        proof {
            assert(load_spec(text@) == Err::<ItemSpec, LoadError>(LoadError::MissingTitle));
        }
        return Err(LoadError::MissingTitle);
    }
    if !metadata.has("date") {
        proof {
            assert(load_spec(text@) == Err::<ItemSpec, LoadError>(LoadError::MissingDate));
        }
        return Err(LoadError::MissingDate);
    }
    let mut norm = match metadata.get("date") {
        Some(d) => d,
        None => {
            return Err(LoadError::MissingDate);
        },
    };
    if !contains_char(norm.as_str(), ' ') {
        norm.append(" 00:00");
    }
    let ts = match parse_datetime(norm.as_str()) {
        None => {
            proof {
                assert(load_spec(text@) == Err::<ItemSpec, LoadError>(LoadError::BadDate));
            }
            return Err(LoadError::BadDate);
        },
        Some(t) => t,
    };
    let status = if metadata.has("status") {
        let st_s = match metadata.get("status") {
            Some(s) => s,
            None => {
                return Err(LoadError::BadStatus);
            },
        };
        match parse_status(st_s.as_str()) {
            None => {
                proof {
                    assert(load_spec(text@) == Err::<ItemSpec, LoadError>(LoadError::BadStatus));
                }
                return Err(LoadError::BadStatus);
            },
            Some(st) => st,
        }
    } else {
        proof {
            lemma_status_public_default();
        }
        ContentStatus::Public
    };
    let output_path = match metadata.get("save_as") {
        Some(p) => p,
        None => {
            let title = match metadata.get("title") {
                Some(t) => t,
                None => {
                    return Err(LoadError::MissingTitle);
                },
            };
            let slug = slug_of(title.as_str());
            let is_page = match metadata.get("layout") {
                Some(l) => str_eq(l.as_str(), "page"),
                None => false,
            };
            if is_page {
                slug
            } else {
                blog_path(&ts, slug.as_str())
            }
        },
    };
    let tags = match metadata.get("tags") {
        Some(t) => parse_tags(t.as_str()),
        None => {
            proof {
                assert(pieces_view(Seq::<String>::empty()) =~= Seq::<Seq<char>>::empty());
            }
            Vec::new()
        },
    };
    proof {
        assert(load_spec(text@) matches Ok(m) && m.timestamp == ts && m.status == status
            && m.markdown == body@ && m.metadata == md && m.output_path == output_path@
            && m.tags == pieces_view(tags@));
    }
    Ok(ContentItem { output_path, markdown: body, metadata, timestamp: ts, status, tags })
}

proof fn lemma_load_bad_delimiter(c: Seq<char>, sep: int)
    requires
        pair_at(c, '\n', '\n', sep),
        sep == first_pair(c, '\n', '\n'),
        parse_block(split_at_char(c.subrange(0, sep), '\n')) is None,
    ensures
        load_spec(c) == Err::<ItemSpec, LoadError>(LoadError::BadDelimiter),
{
}

/// An absent status resolves to `public`.
proof fn lemma_status_public_default()
    ensures
        status_of("public"@) == Some(ContentStatus::Public),
{
    reveal_strlit("public");
    assert(lower_seq("public"@) =~= "public"@);
}

/// Builds a post's dated output path, as [`blog_path_seq`] describes.
pub fn blog_path(ts: &Timestamp, slug: &str) -> (r: String)
    requires
        ts.valid(),
    ensures
        r@ == blog_path_seq(*ts, slug@),
{
    let mut out = String::from_str("blog/");
    push_year(&mut out, ts.year);
    out.append("/");
    push_two_digits(&mut out, ts.month as u64);
    out.append("/");
    push_two_digits(&mut out, ts.day as u64);
    out.append("/");
    out.append(slug);
    proof {
        assert(out@ =~= blog_path_seq(*ts, slug@));
    }
    out
}

} // verus!
