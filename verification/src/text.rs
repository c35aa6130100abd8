//! Verified text utilities.
//!
//! Strings are handled as their character sequences: a pair of trusted
//! bridges converts between `&str`/`String` and `Vec<char>`, Unicode case
//! folding is delegated to the standard library under named results, and
//! everything else — substring search, whitespace handling, the token
//! estimates — is implemented and verified here.

use vstd::prelude::*;
use vstd::string::StrSliceExecFns;

verus! {

/// Relies on str::chars: the characters of the string, in order.
#[verifier::external_body]
pub fn chars_of(s: &str) -> (v: Vec<char>)
    ensures
        v@ == s@,
{
    s.chars().collect()
}

/// Relies on String's FromIterator over characters: the string with exactly
/// these characters, in order.
#[verifier::external_body]
pub fn string_from_chars(v: &Vec<char>) -> (s: String)
    ensures
        s@ == v@,
{
    v.iter().collect()
}

/// What str::to_lowercase returns; the result depends on the characters
/// alone.
pub uninterp spec fn lower_of(s: Seq<char>) -> Seq<char>;

/// What str::to_uppercase returns; the result depends on the characters
/// alone.
pub uninterp spec fn upper_of(s: Seq<char>) -> Seq<char>;

/// Relies on str::to_lowercase: the Unicode lowercase of the string, a
/// function of its characters; an empty string stays empty.
#[verifier::external_body]
pub fn lowercase(s: &str) -> (r: String)
    ensures
        r@ == lower_of(s@),
        s@.len() == 0 ==> r@.len() == 0,
{
    s.to_lowercase()
}

/// Relies on str::to_uppercase: the Unicode uppercase of the string, a
/// function of its characters; an empty string stays empty.
#[verifier::external_body]
pub fn uppercase(s: &str) -> (r: String)
    ensures
        r@ == upper_of(s@),
        s@.len() == 0 ==> r@.len() == 0,
{
    s.to_uppercase()
}

/// The needle occurs in the haystack at position `j`.
pub open spec fn matches_at(hay: Seq<char>, needle: Seq<char>, j: int) -> bool {
    0 <= j && j + needle.len() <= hay.len() && hay.subrange(j, j + needle.len()) == needle
}

/// The needle occurs somewhere in the haystack (str::contains).
pub open spec fn contains_sub(hay: Seq<char>, needle: Seq<char>) -> bool {
    exists|j: int| matches_at(hay, needle, j)
}

pub open spec fn starts_with_seq(hay: Seq<char>, prefix: Seq<char>) -> bool {
    prefix.len() <= hay.len() && hay.subrange(0, prefix.len() as int) == prefix
}

pub open spec fn ends_with_seq(hay: Seq<char>, suffix: Seq<char>) -> bool {
    suffix.len() <= hay.len() && hay.subrange(hay.len() - suffix.len(), hay.len() as int)
        == suffix
}

/// Whether the needle occurs exactly at position `j`.
pub fn check_match_at(hay: &Vec<char>, needle: &Vec<char>, j: usize) -> (r: bool)
    requires
        j + needle@.len() <= hay@.len(),
    ensures
        r == matches_at(hay@, needle@, j as int),
{
    let n = hay.len();
    let m = needle.len();
    let mut k: usize = 0;
    while k < m
        invariant
            k <= m,
            m == needle@.len(),
            n == hay@.len(),
            j + m <= n,
            hay@.subrange(j as int, j + k) =~= needle@.subrange(0, k as int),
        decreases m - k,
    {
        if hay[j + k] != needle[k] {
            proof {
                assert(hay@.subrange(j as int, j + m)[k as int] == hay@[j + k]);
                assert(!matches_at(hay@, needle@, j as int));
            }
            return false;
        }
        proof {
            assert(hay@.subrange(j as int, j + k + 1) =~= needle@.subrange(0, k + 1));
        }
        k += 1;
    }
    proof {
        assert(needle@.subrange(0, m as int) =~= needle@);
    }
    true
}

/// First occurrence of the needle at or after `from`, if any.
pub fn find_sub_from(hay: &Vec<char>, needle: &Vec<char>, from: usize) -> (r: Option<usize>)
    ensures
        match r {
            Some(j) => from <= j && matches_at(hay@, needle@, j as int) && forall|i: int|
                from <= i < j ==> !matches_at(hay@, needle@, i),
            None => forall|i: int| from <= i ==> !matches_at(hay@, needle@, i),
        },
{
    let n = hay.len();
    let m = needle.len();
    if m > n {
        return None;
    }
    let last = n - m;
    if from > last {
        return None;
    }
    let mut j = from;
    loop
        invariant
            from <= j <= last,
            m == needle@.len(),
            n == hay@.len(),
            m <= n,
            last == n - m,
            forall|i: int| from <= i < j ==> !matches_at(hay@, needle@, i),
        decreases last - j,
    {
        if check_match_at(hay, needle, j) {
            return Some(j);
        }
        if j == last {
            proof {
                assert forall|i: int| from <= i implies !matches_at(hay@, needle@, i) by {
                    if i > last {
                        assert(i + needle@.len() > hay@.len());
                    }
                }
            }
            return None;
        }
        j += 1;
    }
}

/// Last occurrence of the needle, if any (str::rfind).
pub fn rfind_sub(hay: &Vec<char>, needle: &Vec<char>) -> (r: Option<usize>)
    ensures
        match r {
            Some(j) => matches_at(hay@, needle@, j as int) && forall|i: int|
                j < i ==> !matches_at(hay@, needle@, i),
            None => forall|i: int| !matches_at(hay@, needle@, i),
        },
{
    let n = hay.len();
    let m = needle.len();
    if m > n {
        return None;
    }
    let last = n - m;
    let mut j = last;
    loop
        invariant
            j <= last,
            m == needle@.len(),
            n == hay@.len(),
            m <= n,
            last == n - m,
            forall|i: int| j < i ==> !matches_at(hay@, needle@, i),
        decreases j + 1,
    {
        if check_match_at(hay, needle, j) {
            return Some(j);
        }
        if j == 0 {
            return None;
        }
        j -= 1;
    }
}

pub fn contains_chars(hay: &Vec<char>, needle: &Vec<char>) -> (r: bool)
    ensures
        r == contains_sub(hay@, needle@),
{
    match find_sub_from(hay, needle, 0) {
        Some(_) => true,
        None => false,
    }
}

/// Case-insensitive containment, as the standard library folds case
/// (str::to_lowercase on both sides).
pub fn contains_ignore_case(hay: &str, needle: &str) -> (r: bool)
    ensures
        r == contains_sub(lower_of(hay@), lower_of(needle@)),
{
    let h = lowercase(hay);
    let n = lowercase(needle);
    let hv = chars_of(h.as_str());
    let nv = chars_of(n.as_str());
    contains_chars(&hv, &nv)
}

pub fn starts_with_chars(hay: &Vec<char>, prefix: &Vec<char>) -> (r: bool)
    ensures
        r == starts_with_seq(hay@, prefix@),
{
    if prefix.len() > hay.len() {
        return false;
    }
    check_match_at(hay, prefix, 0)
}

pub fn ends_with_chars(hay: &Vec<char>, suffix: &Vec<char>) -> (r: bool)
    ensures
        r == ends_with_seq(hay@, suffix@),
{
    if suffix.len() > hay.len() {
        return false;
    }
    let j = hay.len() - suffix.len();
    let r = check_match_at(hay, suffix, j);
    proof {
        assert(matches_at(hay@, suffix@, j as int) == ends_with_seq(hay@, suffix@));
    }
    r
}

/// Character count plus a rough speech-synthesis token estimate: synthesis
/// is billed by characters, roughly four characters per token, rounded up.
pub fn estimate_tts_tokens_and_chars(text: &str) -> (r: (usize, usize))
    ensures
        r.1 == text@.len(),
        r.0 == (text@.len() + 3) / 4,
{
    let chars = text.unicode_len();
    let tokens = chars / 4 + if chars % 4 != 0 {
        1
    } else {
        0
    };
    proof {
        assert(tokens == (chars + 3) / 4);
    }
    (tokens, chars)
}

/// The token estimate alone: the character count divided by four, rounded
/// up.
pub fn estimate_tokens_only(text: &str) -> (r: usize)
    ensures
        r == (text@.len() + 3) / 4,
{
    let (tokens, _) = estimate_tts_tokens_and_chars(text);
    tokens
}

/// Unicode whitespace, as char::is_whitespace defines it.
pub open spec fn is_space(c: char) -> bool {
    ||| c == ' '
    ||| ('\u{9}' <= c && c <= '\u{D}')
    ||| c == '\u{85}'
    ||| c == '\u{A0}'
    ||| c == '\u{1680}'
    ||| ('\u{2000}' <= c && c <= '\u{200A}')
    ||| c == '\u{2028}'
    ||| c == '\u{2029}'
    ||| c == '\u{202F}'
    ||| c == '\u{205F}'
    ||| c == '\u{3000}'
}

pub fn is_space_char(c: char) -> (r: bool)
    ensures
        r == is_space(c),
{
    c == ' ' || ('\u{9}' <= c && c <= '\u{D}') || c == '\u{85}' || c == '\u{A0}' || c == '\u{1680}'
        || ('\u{2000}' <= c && c <= '\u{200A}') || c == '\u{2028}' || c == '\u{2029}'
        || c == '\u{202F}' || c == '\u{205F}' || c == '\u{3000}'
}

pub open spec fn drop_leading_ws(s: Seq<char>) -> Seq<char>
    decreases s.len(),
{
    if s.len() > 0 && is_space(s[0]) {
        drop_leading_ws(s.skip(1))
    } else {
        s
    }
}

pub open spec fn drop_trailing_ws(s: Seq<char>) -> Seq<char>
    decreases s.len(),
{
    if s.len() > 0 && is_space(s.last()) {
        drop_trailing_ws(s.drop_last())
    } else {
        s
    }
}

/// What str::trim returns: the string without leading and trailing
/// whitespace.
pub open spec fn trim_spec(s: Seq<char>) -> Seq<char> {
    drop_trailing_ws(drop_leading_ws(s))
}

pub fn trim_chars(v: &Vec<char>) -> (out: Vec<char>)
    ensures
        out@ == trim_spec(v@),
{
    let n = v.len();
    let mut start: usize = 0;
    proof {
        assert(v@.skip(0) =~= v@);
    }
    while start < n && is_space_char(v[start])
        invariant
            start <= n,
            n == v@.len(),
            drop_leading_ws(v@) == drop_leading_ws(v@.skip(start as int)),
        decreases n - start,
    {
        proof {
            assert(v@.skip(start as int)[0] == v@[start as int]);
            assert(v@.skip(start as int).skip(1) =~= v@.skip(start + 1));
        }
        start += 1;
    }
    proof {
        if start < n {
            assert(!is_space(v@.skip(start as int)[0]));
        }
        assert(drop_leading_ws(v@) == v@.skip(start as int));
    }
    let mut end: usize = n;
    while end > start && is_space_char(v[end - 1])
        invariant
            start <= end <= n,
            n == v@.len(),
            drop_leading_ws(v@) == v@.skip(start as int),
            drop_trailing_ws(v@.skip(start as int)) == drop_trailing_ws(
                v@.subrange(start as int, end as int),
            ),
        decreases end,
    {
        proof {
            let cur = v@.subrange(start as int, end as int);
            assert(cur.last() == v@[end - 1]);
            assert(cur.drop_last() =~= v@.subrange(start as int, end - 1));
        }
        end -= 1;
    }
    proof {
        let cur = v@.subrange(start as int, end as int);
        if end > start {
            assert(cur.last() == v@[end - 1]);
            assert(!is_space(cur.last()));
        }
        assert(drop_trailing_ws(cur) == cur);
    }
    let mut out: Vec<char> = Vec::new();
    let mut i = start;
    while i < end
        invariant
            start <= i <= end <= n,
            n == v@.len(),
            out@ =~= v@.subrange(start as int, i as int),
        decreases end - i,
    {
        out.push(v[i]);
        proof {
            assert(out@ =~= v@.subrange(start as int, i + 1));
        }
        i += 1;
    }
    proof {
        assert(out@ =~= trim_spec(v@));
    }
    out
}

/// What str::trim returns, on a string.
pub fn trim_str(s: &str) -> (r: String)
    ensures
        r@ == trim_spec(s@),
{
    let v = chars_of(s);
    let t = trim_chars(&v);
    string_from_chars(&t)
}

/// Whether a string is empty after trimming; collaborator credentials are
/// checked with this before a session starts.
pub fn is_blank(s: &str) -> (r: bool)
    ensures
        r == (trim_spec(s@).len() == 0),
{
    let v = chars_of(s);
    let t = trim_chars(&v);
    t.len() == 0
}

/// One character folded into a whitespace-collapsed accumulator: word
/// characters are kept, and a run of whitespace becomes a single space, with
/// no leading space.
pub open spec fn collapse_step(acc: Seq<char>, c: char) -> Seq<char> {
    if !is_space(c) {
        acc.push(c)
    } else if acc.len() > 0 && acc.last() != ' ' {
        acc.push(' ')
    } else {
        acc
    }
}

pub open spec fn collapse_prefix(s: Seq<char>, i: int) -> Seq<char>
    decreases i,
{
    if i <= 0 {
        Seq::empty()
    } else {
        collapse_step(collapse_prefix(s, i - 1), s[i - 1])
    }
}

/// The string's whitespace-separated words joined by single spaces
/// (str::split_whitespace joined by " ").
pub open spec fn collapse_ws(s: Seq<char>) -> Seq<char> {
    let folded = collapse_prefix(s, s.len() as int);
    if folded.len() > 0 && folded.last() == ' ' {
        folded.drop_last()
    } else {
        folded
    }
}

pub fn collapse_whitespace_chars(v: &Vec<char>) -> (out: Vec<char>)
    ensures
        out@ == collapse_ws(v@),
{
    let n = v.len();
    let mut acc: Vec<char> = Vec::new();
    let mut i: usize = 0;
    while i < n
        invariant
            i <= n,
            n == v@.len(),
            acc@ == collapse_prefix(v@, i as int),
        decreases n - i,
    {
        let c = v[i];
        if !is_space_char(c) {
            acc.push(c);
        } else if acc.len() > 0 && acc[acc.len() - 1] != ' ' {
            acc.push(' ');
        }
        proof {
            assert(acc@ =~= collapse_prefix(v@, i + 1));
        }
        i += 1;
    }
    if acc.len() > 0 && acc[acc.len() - 1] == ' ' {
        let _ = acc.pop();
        proof {
            assert(acc@ =~= collapse_ws(v@));
        }
    }
    acc
}

/// Characters not allowed in a file name.
pub open spec fn invalid_filename_char(c: char) -> bool {
    c == '\\' || c == '/' || c == ':' || c == '*' || c == '?' || c == '"' || c == '<' || c == '>'
        || c == '|'
}

/// What a conversation title turns into as a file name: characters the file
/// system refuses become spaces, and whitespace runs collapse to single
/// spaces with none at either end.
pub open spec fn sanitize_spec(title: Seq<char>) -> Seq<char> {
    collapse_ws(title.map_values(|c: char| if invalid_filename_char(c) { ' ' } else { c }))
}

pub fn sanitize_title_for_filename(title: &str) -> (r: String)
    ensures
        r@ == sanitize_spec(title@),
{
    let v = chars_of(title);
    let n = v.len();
    let mut replaced: Vec<char> = Vec::new();
    let mut i: usize = 0;
    while i < n
        invariant
            i <= n,
            n == v@.len(),
            replaced@ =~= v@.take(i as int).map_values(
                |c: char| if invalid_filename_char(c) { ' ' } else { c },
            ),
        decreases n - i,
    {
        let c = v[i];
        if c == '\\' || c == '/' || c == ':' || c == '*' || c == '?' || c == '"' || c == '<'
            || c == '>' || c == '|' {
            replaced.push(' ');
        } else {
            replaced.push(c);
        }
        proof {
            assert(replaced@ =~= v@.take(i + 1).map_values(
                |c: char| if invalid_filename_char(c) { ' ' } else { c },
            ));
        }
        i += 1;
    }
    proof {
        assert(v@.take(n as int) =~= v@);
    }
    let collapsed = collapse_whitespace_chars(&replaced);
    string_from_chars(&collapsed)
}

/// Whether a content-type header names an image: its lowercase form begins
/// with "image/".
pub fn is_image_content_type(ct: &str) -> (r: bool)
    ensures
        r == starts_with_seq(lower_of(ct@), "image/"@),
{
    let lowered = lowercase(ct);
    let lv = chars_of(lowered.as_str());
    let prefix = chars_of("image/");
    starts_with_chars(&lv, &prefix)
}

/// Whether a URL looks like an image by its extension: its lowercase form
/// ends with one of the common image suffixes.
pub fn is_image_url_by_ext(url: &str) -> (r: bool)
    ensures
        r == (ends_with_seq(lower_of(url@), ".png"@) || ends_with_seq(lower_of(url@), ".jpg"@)
            || ends_with_seq(lower_of(url@), ".jpeg"@) || ends_with_seq(lower_of(url@), ".gif"@)
            || ends_with_seq(lower_of(url@), ".webp"@)),
{
    let lowered = lowercase(url);
    let lv = chars_of(lowered.as_str());
    let png = chars_of(".png");
    let jpg = chars_of(".jpg");
    let jpeg = chars_of(".jpeg");
    let gif = chars_of(".gif");
    let webp = chars_of(".webp");
    ends_with_chars(&lv, &png) || ends_with_chars(&lv, &jpg) || ends_with_chars(&lv, &jpeg)
        || ends_with_chars(&lv, &gif) || ends_with_chars(&lv, &webp)
}

} // verus!
