//! Text preparation around the language-model query.
//!
//! A prompt may carry embedded images and remote links; a fetched web page
//! is reduced to its text; a redirector link from an image search is
//! resolved to the image it points at. The network fetches themselves happen
//! in the surrounding application; the scanning, stripping and deciding is
//! verified here. URL parsing is delegated to an outside parser under named
//! results.

use vstd::prelude::*;
use vstd::string::StringExecFns;

use base64::Engine;

use crate::text::{
    chars_of, check_match_at, collapse_whitespace_chars, collapse_ws, contains_chars,
    contains_sub, ends_with_chars, ends_with_seq, is_space, matches_at, string_from_chars,
};

verus! {

/// Index of the first '>' at or after `i`, or the length when there is none.
pub open spec fn first_gt_idx(s: Seq<char>, i: int) -> int
    decreases s.len() - i,
        when 0 <= i
{
    if i >= s.len() {
        s.len() as int
    } else if s[i] == '>' {
        i
    } else {
        first_gt_idx(s, i + 1)
    }
}

proof fn lemma_first_gt_bounds(s: Seq<char>, i: int)
    requires
        0 <= i <= s.len(),
    ensures
        i <= first_gt_idx(s, i),
        first_gt_idx(s, i) <= s.len(),
    decreases s.len() - i,
{
    if i >= s.len() {
    } else if s[i] == '>' {
    } else {
        lemma_first_gt_bounds(s, i + 1);
    }
}

/// The text with every tag replaced by a space: from each '<' to the next
/// '>' at least two characters on, the span becomes one space; a '<' with no
/// such '>' stays.
pub open spec fn strip_tags_from(s: Seq<char>, i: int) -> Seq<char>
    decreases s.len() - i,
        when 0 <= i via strip_tags_from_decreases
{
    if i >= s.len() {
        Seq::empty()
    } else if s[i] == '<' {
        let g = first_gt_idx(s, i + 1);
        if g < s.len() && g > i + 1 {
            seq![' '] + strip_tags_from(s, g + 1)
        } else {
            seq![s[i]] + strip_tags_from(s, i + 1)
        }
    } else {
        seq![s[i]] + strip_tags_from(s, i + 1)
    }
}

#[via_fn]
proof fn strip_tags_from_decreases(s: Seq<char>, i: int) {
    if 0 <= i && i < s.len() {
        lemma_first_gt_bounds(s, i + 1);
    }
}

/// Index of the first '>' at or after `from`.
fn gt_from(v: &Vec<char>, from: usize) -> (r: usize)
    requires
        from <= v@.len(),
    ensures
        r == first_gt_idx(v@, from as int),
        from <= r <= v@.len(),
{
    let n = v.len();
    let mut i = from;
    while i < n
        invariant
            from <= i <= n,
            n == v@.len(),
            first_gt_idx(v@, from as int) == first_gt_idx(v@, i as int),
        decreases n - i,
    {
        if v[i] == '>' {
            proof {
                lemma_first_gt_bounds(v@, from as int);
            }
            return i;
        }
        i += 1;
    }
    i
}

/// Reduce a fetched web page to its text: tags become spaces, whitespace
/// runs collapse to single spaces, and the ends are trimmed.
pub fn strip_html(input: &str) -> (r: String)
    ensures
        r@ == collapse_ws(strip_tags_from(input@, 0)),
{
    let v = chars_of(input);
    let n = v.len();
    let mut out: Vec<char> = Vec::new();
    let mut i: usize = 0;
    while i < n
        invariant
            i <= n,
            n == v@.len(),
            out@ + strip_tags_from(v@, i as int) == strip_tags_from(v@, 0),
        decreases n - i,
    {
        let ghost prev = out@;
        let c = v[i];
        if c == '<' {
            let g = gt_from(&v, i + 1);
            if g < n && g > i + 1 {
                out.push(' ');
                proof {
                    assert(prev + (seq![' '] + strip_tags_from(v@, g + 1)) =~= out@
                        + strip_tags_from(v@, g + 1));
                }
                i = g + 1;
            } else {
                out.push(c);
                proof {
                    assert(prev + (seq![c] + strip_tags_from(v@, i + 1)) =~= out@
                        + strip_tags_from(v@, i + 1));
                }
                i += 1;
            }
        } else {
            out.push(c);
            proof {
                assert(prev + (seq![c] + strip_tags_from(v@, i + 1)) =~= out@ + strip_tags_from(
                    v@,
                    i + 1,
                ));
            }
            i += 1;
        }
    }
    proof {
        assert(out@ + Seq::<char>::empty() =~= out@);
    }
    let collapsed = collapse_whitespace_chars(&out);
    string_from_chars(&collapsed)
}

/// A character a scanned link token may contain: anything but whitespace and
/// a closing parenthesis.
pub open spec fn is_url_char(c: char) -> bool {
    !is_space(c) && c != ')'
}

/// End of the run of link characters starting at `i`.
pub open spec fn url_run_end(s: Seq<char>, i: int) -> int
    decreases s.len() - i,
        when 0 <= i
{
    if i < s.len() && is_url_char(s[i]) {
        url_run_end(s, i + 1)
    } else {
        i
    }
}

proof fn lemma_url_run_bounds(s: Seq<char>, i: int)
    requires
        0 <= i <= s.len(),
    ensures
        i <= url_run_end(s, i),
        url_run_end(s, i) <= s.len(),
    decreases s.len() - i,
{
    if i < s.len() && is_url_char(s[i]) {
        lemma_url_run_bounds(s, i + 1);
    }
}

pub open spec fn http_prefix() -> Seq<char> {
    seq!['h', 't', 't', 'p', ':', '/', '/']
}

pub open spec fn https_prefix() -> Seq<char> {
    seq!['h', 't', 't', 'p', 's', ':', '/', '/']
}

/// A link token starts at `j`: an http or https scheme followed by at least
/// one more link character.
pub open spec fn url_at(s: Seq<char>, j: int) -> bool {
    ||| (matches_at(s, https_prefix(), j) && url_run_end(s, j) > j + 8)
    ||| (matches_at(s, http_prefix(), j) && url_run_end(s, j) > j + 7)
}

/// The link tokens of the text, in order, scanning left to right and
/// resuming after each token.
pub open spec fn urls_from(s: Seq<char>, i: int) -> Seq<Seq<char>>
    decreases s.len() - i,
        when 0 <= i <= s.len() via urls_from_decreases
{
    if i >= s.len() {
        Seq::empty()
    } else if url_at(s, i) {
        seq![s.subrange(i, url_run_end(s, i))] + urls_from(s, url_run_end(s, i))
    } else {
        urls_from(s, i + 1)
    }
}

#[via_fn]
proof fn urls_from_decreases(s: Seq<char>, i: int) {
    if 0 <= i < s.len() {
        lemma_url_run_bounds(s, i);
    }
}

/// End of the run of link characters starting at `from`.
fn url_run_from(v: &Vec<char>, from: usize) -> (r: usize)
    requires
        from <= v@.len(),
    ensures
        r == url_run_end(v@, from as int),
        from <= r <= v@.len(),
{
    let n = v.len();
    let mut i = from;
    while i < n && !crate::text::is_space_char(v[i]) && v[i] != ')'
        invariant
            from <= i <= n,
            n == v@.len(),
            url_run_end(v@, from as int) == url_run_end(v@, i as int),
        decreases n - i,
    {
        i += 1;
    }
    proof {
        lemma_url_run_bounds(v@, from as int);
    }
    i
}

/// The link tokens of a prompt, in order (each an http or https URL up to
/// whitespace or a closing parenthesis).
pub fn find_urls(prompt: &str) -> (r: Vec<String>)
    ensures
        r.deep_view() == urls_from(prompt@, 0),
{
    proof {
        reveal_strlit("http://");
        reveal_strlit("https://");
        assert("http://"@ =~= http_prefix());
        assert("https://"@ =~= https_prefix());
    }
    let v = chars_of(prompt);
    let http = chars_of("http://");
    let https = chars_of("https://");
    let n = v.len();
    let mut out: Vec<String> = Vec::new();
    let mut i: usize = 0;
    while i < n
        invariant
            i <= n,
            n == v@.len(),
            http@ == http_prefix(),
            https@ == https_prefix(),
            out.deep_view() + urls_from(v@, i as int) == urls_from(v@, 0),
        decreases n - i,
    {
        let e = url_run_from(&v, i);
        let hit_https = if n >= 8 && i <= n - 8 {
            check_match_at(&v, &https, i) && e > i + 8
        } else {
            false
        };
        let hit_http = if n >= 7 && i <= n - 7 {
            check_match_at(&v, &http, i) && e > i + 7
        } else {
            false
        };
        proof {
            assert((hit_https || hit_http) == url_at(v@, i as int));
        }
        let ghost prev = out.deep_view();
        if hit_https || hit_http {
            let mut tok: Vec<char> = Vec::new();
            let mut p = i;
            while p < e
                invariant
                    i <= p <= e <= n,
                    n == v@.len(),
                    tok@ =~= v@.subrange(i as int, p as int),
                decreases e - p,
            {
                tok.push(v[p]);
                proof {
                    assert(tok@ =~= v@.subrange(i as int, p + 1));
                }
                p += 1;
            }
            out.push(string_from_chars(&tok));
            proof {
                assert(out.deep_view() =~= prev.push(v@.subrange(i as int, e as int)));
                assert(prev + (seq![v@.subrange(i as int, e as int)] + urls_from(v@, e as int))
                    =~= out.deep_view() + urls_from(v@, e as int));
            }
            i = e;
        } else {
            proof {
                assert(prev + urls_from(v@, i + 1) =~= out.deep_view() + urls_from(v@, i + 1));
            }
            i += 1;
        }
    }
    proof {
        assert(out.deep_view() + Seq::<Seq<char>>::empty() =~= out.deep_view());
    }
    out
}

/// The content type guessed from a link's extension when the server names
/// none: the exact (case-sensitive) suffix decides, anything else is an
/// opaque byte stream.
pub fn guess_image_mime(url: &str) -> (r: &'static str)
    ensures
        ends_with_seq(url@, ".png"@) ==> r@ == "image/png"@,
        (!ends_with_seq(url@, ".png"@) && (ends_with_seq(url@, ".jpg"@) || ends_with_seq(
            url@,
            ".jpeg"@,
        ))) ==> r@ == "image/jpeg"@,
        (!ends_with_seq(url@, ".png"@) && !ends_with_seq(url@, ".jpg"@) && !ends_with_seq(
            url@,
            ".jpeg"@,
        ) && ends_with_seq(url@, ".gif"@)) ==> r@ == "image/gif"@,
        (!ends_with_seq(url@, ".png"@) && !ends_with_seq(url@, ".jpg"@) && !ends_with_seq(
            url@,
            ".jpeg"@,
        ) && !ends_with_seq(url@, ".gif"@) && ends_with_seq(url@, ".webp"@)) ==> r@
            == "image/webp"@,
        (!ends_with_seq(url@, ".png"@) && !ends_with_seq(url@, ".jpg"@) && !ends_with_seq(
            url@,
            ".jpeg"@,
        ) && !ends_with_seq(url@, ".gif"@) && !ends_with_seq(url@, ".webp"@)) ==> r@
            == "application/octet-stream"@,
{
    let v = chars_of(url);
    let png = chars_of(".png");
    let jpg = chars_of(".jpg");
    let jpeg = chars_of(".jpeg");
    let gif = chars_of(".gif");
    let webp = chars_of(".webp");
    if ends_with_chars(&v, &png) {
        "image/png"
    } else if ends_with_chars(&v, &jpg) || ends_with_chars(&v, &jpeg) {
        "image/jpeg"
    } else if ends_with_chars(&v, &gif) {
        "image/gif"
    } else if ends_with_chars(&v, &webp) {
        "image/webp"
    } else {
        "application/octet-stream"
    }
}

/// Whether url::Url::parse accepts the string; a function of it alone.
pub uninterp spec fn url_parses(s: Seq<char>) -> bool;

/// What url::Url::domain answers for a parsed URL string; a function of it
/// alone.
pub uninterp spec fn url_domain_of(s: Seq<char>) -> Option<Seq<char>>;

/// What url::Url::query_pairs decodes from a parsed URL string, in order; a
/// function of it alone.
pub uninterp spec fn url_query_pairs_of(s: Seq<char>) -> Seq<(Seq<char>, Seq<char>)>;

/// The key/value views of decoded query pairs.
pub open spec fn pairs_view(pairs: Seq<(String, String)>) -> Seq<(Seq<char>, Seq<char>)> {
    pairs.map_values(|p: (String, String)| (p.0@, p.1@))
}

/// Relies on url::Url::parse, Url::domain and Url::query_pairs: whether the
/// string parses, its registrable domain, and its decoded query pairs are
/// all functions of the string alone.
#[verifier::external_body]
fn parse_url_info(s: &str) -> (r: Option<(Option<String>, Vec<(String, String)>)>)
    ensures
        r is Some <==> url_parses(s@),
        r matches Some(info) ==> ({
            &&& (match info.0 {
                Some(d) => url_domain_of(s@) == Some(d@),
                None => url_domain_of(s@) is None,
            })
            &&& pairs_view(info.1@) == url_query_pairs_of(s@)
        }),
{
    match url::Url::parse(s) {
        Ok(u) => {
            let domain = u.domain().map(|d| d.to_string());
            let pairs = u.query_pairs().map(|(k, v)| (k.into_owned(), v.into_owned())).collect();
            Some((domain, pairs))
        },
        Err(_) => None,
    }
}

/// A domain of an image-search redirector.
pub open spec fn is_engine_domain(d: Option<Seq<char>>) -> bool {
    match d {
        Some(name) => contains_sub(name, "google"@) || contains_sub(name, "bing"@),
        None => false,
    }
}

/// The value of the first query pair with the given key, from position `i`.
pub open spec fn first_val_from(
    pairs: Seq<(Seq<char>, Seq<char>)>,
    key: Seq<char>,
    i: int,
) -> Option<Seq<char>>
    decreases pairs.len() - i,
        when 0 <= i <= pairs.len()
{
    if i >= pairs.len() {
        None
    } else if pairs[i].0 == key {
        Some(pairs[i].1)
    } else {
        first_val_from(pairs, key, i + 1)
    }
}

/// Whether the key names a query pair whose value is itself a valid URL.
pub open spec fn usable_redirect(pairs: Seq<(Seq<char>, Seq<char>)>, key: Seq<char>) -> bool {
    match first_val_from(pairs, key, 0) {
        Some(v) => url_parses(v),
        None => false,
    }
}

/// What a raw link resolves to: on a search-engine redirector, the first
/// redirect parameter (imgurl, mediaurl, imgrefurl, url — in that order)
/// whose value is itself a valid URL; otherwise the link unchanged.
pub open spec fn resolve_redirect_spec(raw: Seq<char>) -> Seq<char> {
    if url_parses(raw) && is_engine_domain(url_domain_of(raw)) {
        let p = url_query_pairs_of(raw);
        if usable_redirect(p, "imgurl"@) {
            first_val_from(p, "imgurl"@, 0)->0
        } else if usable_redirect(p, "mediaurl"@) {
            first_val_from(p, "mediaurl"@, 0)->0
        } else if usable_redirect(p, "imgrefurl"@) {
            first_val_from(p, "imgrefurl"@, 0)->0
        } else if usable_redirect(p, "url"@) {
            first_val_from(p, "url"@, 0)->0
        } else {
            raw
        }
    } else {
        raw
    }
}

fn find_pair_value(pairs: &Vec<(String, String)>, key: &str) -> (r: Option<String>)
    ensures
        match r {
            Some(v) => first_val_from(pairs_view(pairs@), key@, 0) == Some(v@),
            None => first_val_from(pairs_view(pairs@), key@, 0) is None,
        },
{
    let n = pairs.len();
    let key_string = String::from_str(key);
    let mut i: usize = 0;
    while i < n
        invariant
            i <= n,
            n == pairs@.len(),
            key_string@ == key@,
            first_val_from(pairs_view(pairs@), key@, 0) == first_val_from(
                pairs_view(pairs@),
                key@,
                i as int,
            ),
        decreases n - i,
    {
        proof {
            assert(pairs_view(pairs@)[i as int] == (pairs@[i as int].0@, pairs@[i as int].1@));
        }
        if pairs[i].0 == key_string {
            return Some(pairs[i].1.clone());
        }
        i += 1;
    }
    None
}

fn clone_str(s: &str) -> (r: String)
    ensures
        r@ == s@,
{
    let v = chars_of(s);
    string_from_chars(&v)
}

/// Resolve an image-search redirector link to the image it points at;
/// anything else comes back unchanged.
pub fn resolve_image_url(raw: &str) -> (r: String)
    ensures
        r@ == resolve_redirect_spec(raw@),
{
    match parse_url_info(raw) {
        Some((domain, pairs)) => {
            let engine = match &domain {
                Some(d) => {
                    let dv = chars_of(d.as_str());
                    let google = chars_of("google");
                    let bing = chars_of("bing");
                    contains_chars(&dv, &google) || contains_chars(&dv, &bing)
                },
                None => false,
            };
            if engine {
                if let Some(val) = find_pair_value(&pairs, "imgurl") {
                    if parse_url_info(val.as_str()).is_some() {
                        return val;
                    }
                }
                if let Some(val) = find_pair_value(&pairs, "mediaurl") {
                    if parse_url_info(val.as_str()).is_some() {
                        return val;
                    }
                }
                if let Some(val) = find_pair_value(&pairs, "imgrefurl") {
                    if parse_url_info(val.as_str()).is_some() {
                        return val;
                    }
                }
                if let Some(val) = find_pair_value(&pairs, "url") {
                    if parse_url_info(val.as_str()).is_some() {
                        return val;
                    }
                }
            }
            clone_str(raw)
        },
        None => clone_str(raw),
    }
}

/// Copy a character range out of the scanned text.
fn copy_range(v: &Vec<char>, a: usize, b: usize) -> (out: Vec<char>)
    requires
        a <= b <= v@.len(),
    ensures
        out@ == v@.subrange(a as int, b as int),
{
    let mut out: Vec<char> = Vec::new();
    let mut i = a;
    while i < b
        invariant
            a <= i <= b <= v@.len(),
            out@ =~= v@.subrange(a as int, i as int),
        decreases b - i,
    {
        out.push(v[i]);
        proof {
            assert(out@ =~= v@.subrange(a as int, i + 1));
        }
        i += 1;
    }
    proof {
        assert(out@ =~= v@.subrange(a as int, b as int));
    }
    out
}

/// What base64's standard-alphabet engine decodes a string to, if anything;
/// a function of the string alone.
pub uninterp spec fn b64_decode_of(s: Seq<char>) -> Option<Seq<u8>>;

/// Relies on base64's standard-alphabet engine: whether a string decodes,
/// and to which bytes, depends on the string alone.
#[verifier::external_body]
fn base64_decode(s: &str) -> (r: Option<Vec<u8>>)
    ensures
        r is Some <==> b64_decode_of(s@) is Some,
        r matches Some(b) ==> b64_decode_of(s@) == Some(b@),
{
    match base64::engine::general_purpose::STANDARD.decode(s) {
        Ok(b) => Some(b),
        Err(_) => None,
    }
}

/// A character of the base64 alphabet, padding included.
pub open spec fn is_b64_char(c: char) -> bool {
    ('A' <= c && c <= 'Z') || ('a' <= c && c <= 'z') || ('0' <= c && c <= '9') || c == '+' || c
        == '/' || c == '='
}

fn is_b64_char_exec(c: char) -> (r: bool)
    ensures
        r == is_b64_char(c),
{
    ('A' <= c && c <= 'Z') || ('a' <= c && c <= 'z') || ('0' <= c && c <= '9') || c == '+' || c
        == '/' || c == '='
}

/// End of the run of word characters starting at `i`.
pub open spec fn word_run_end(s: Seq<char>, i: int) -> int
    decreases s.len() - i,
        when 0 <= i
{
    if i < s.len() && crate::transform::is_word_char(s[i]) {
        word_run_end(s, i + 1)
    } else {
        i
    }
}

/// End of the run of base64 characters starting at `i`.
pub open spec fn b64_run_end(s: Seq<char>, i: int) -> int
    decreases s.len() - i,
        when 0 <= i
{
    if i < s.len() && is_b64_char(s[i]) {
        b64_run_end(s, i + 1)
    } else {
        i
    }
}

pub open spec fn data_prefix() -> Seq<char> {
    seq!['d', 'a', 't', 'a', ':', 'i', 'm', 'a', 'g', 'e', '/']
}

pub open spec fn b64_marker() -> Seq<char> {
    seq![';', 'b', 'a', 's', 'e', '6', '4', ',']
}

/// An embedded image data link starts at `j`: the data-image prefix, a
/// non-empty mime run of word characters, the base64 marker, and a non-empty
/// run of base64 characters.
pub open spec fn data_uri_at(s: Seq<char>, j: int) -> bool {
    &&& matches_at(s, data_prefix(), j)
    &&& ({
        let m1 = word_run_end(s, j + 11);
        &&& m1 > j + 11
        &&& matches_at(s, b64_marker(), m1)
        &&& b64_run_end(s, m1 + 8) > m1 + 8
    })
}

fn word_run_from(v: &Vec<char>, from: usize) -> (r: usize)
    requires
        from <= v@.len(),
    ensures
        r == word_run_end(v@, from as int),
        from <= r <= v@.len(),
{
    let n = v.len();
    let mut i = from;
    while i < n && crate::transform::is_word_char_exec(v[i])
        invariant
            from <= i <= n,
            n == v@.len(),
            word_run_end(v@, from as int) == word_run_end(v@, i as int),
        decreases n - i,
    {
        i += 1;
    }
    i
}

fn b64_run_from(v: &Vec<char>, from: usize) -> (r: usize)
    requires
        from <= v@.len(),
    ensures
        r == b64_run_end(v@, from as int),
        from <= r <= v@.len(),
{
    let n = v.len();
    let mut i = from;
    while i < n && is_b64_char_exec(v[i])
        invariant
            from <= i <= n,
            n == v@.len(),
            b64_run_end(v@, from as int) == b64_run_end(v@, i as int),
        decreases n - i,
    {
        i += 1;
    }
    i
}

/// Split a prompt around its first embedded image data link: the text
/// before, the mime subtype, the decoded image bytes (empty when the base64
/// run does not decode), and the text after. A prompt without such a link
/// comes back whole.
pub fn extract_image_parts(prompt: &str) -> (r: Result<
    (String,),
    (String, String, Vec<u8>, String),
>)
    ensures
        match r {
            Ok(t) => t.0@ == prompt@ && forall|j: int| !data_uri_at(prompt@, j),
            Err(parts) => exists|j: int|
                {
                    let m1 = word_run_end(prompt@, j + 11);
                    let m2 = b64_run_end(prompt@, m1 + 8);
                    &&& #[trigger] data_uri_at(prompt@, j)
                    &&& (forall|i: int| 0 <= i < j ==> !data_uri_at(prompt@, i))
                    &&& parts.0@ == prompt@.subrange(0, j)
                    &&& parts.1@ == prompt@.subrange(j + 11, m1)
                    &&& parts.3@ == prompt@.subrange(m2, prompt@.len() as int)
                    &&& (match b64_decode_of(prompt@.subrange(m1 + 8, m2)) {
                        Some(bytes) => parts.2@ == bytes,
                        None => parts.2@ == Seq::<u8>::empty(),
                    })
                },
        },
{
    proof {
        reveal_strlit("data:image/");
        reveal_strlit(";base64,");
        assert("data:image/"@ =~= data_prefix());
        assert(";base64,"@ =~= b64_marker());
    }
    let v = chars_of(prompt);
    let prefix = chars_of("data:image/");
    let marker = chars_of(";base64,");
    let n = v.len();
    let mut from: usize = 0;
    loop
        invariant
            from <= n,
            n == v@.len(),
            v@ == prompt@,
            prefix@ == data_prefix(),
            marker@ == b64_marker(),
            forall|i: int| 0 <= i < from ==> !data_uri_at(v@, i),
        decreases n - from,
    {
        match crate::text::find_sub_from(&v, &prefix, from) {
            None => {
                proof {
                    assert forall|j: int| !data_uri_at(prompt@, j) by {
                        if 0 <= j < from {
                        } else if j >= from {
                            assert(!matches_at(v@, data_prefix(), j));
                        } else {
                            assert(!matches_at(v@, data_prefix(), j));
                        }
                    }
                }
                return Ok((clone_str(prompt),));
            },
            Some(jj) => {
                let m1 = word_run_from(&v, jj + 11);
                let ok_mime = m1 > jj + 11;
                let ok_marker = ok_mime && n >= 8 && m1 <= n - 8 && check_match_at(
                    &v,
                    &marker,
                    m1,
                );
                if ok_marker {
                    let m2 = b64_run_from(&v, m1 + 8);
                    if m2 > m1 + 8 {
                        proof {
                            assert(data_uri_at(v@, jj as int));
                            assert forall|i: int| 0 <= i < jj implies !data_uri_at(v@, i) by {
                                if i >= from {
                                    assert(!matches_at(v@, data_prefix(), i));
                                }
                            }
                        }
                        let pre = copy_range(&v, 0, jj);
                        let mime = copy_range(&v, jj + 11, m1);
                        let b64s = copy_range(&v, m1 + 8, m2);
                        let post = copy_range(&v, m2, n);
                        let b64_string = string_from_chars(&b64s);
                        let bytes = match base64_decode(b64_string.as_str()) {
                            Some(b) => b,
                            None => Vec::new(),
                        };
                        return Err(
                            (
                                string_from_chars(&pre),
                                string_from_chars(&mime),
                                bytes,
                                string_from_chars(&post),
                            ),
                        );
                    }
                    proof {
                        assert(!data_uri_at(v@, jj as int));
                        assert forall|i: int| 0 <= i < jj + 1 implies !data_uri_at(v@, i) by {
                            if from <= i < jj {
                                assert(!matches_at(v@, data_prefix(), i));
                            }
                        }
                    }
                    from = jj + 1;
                } else {
                    proof {
                        assert(!data_uri_at(v@, jj as int));
                        assert forall|i: int| 0 <= i < jj + 1 implies !data_uri_at(v@, i) by {
                            if from <= i < jj {
                                assert(!matches_at(v@, data_prefix(), i));
                            }
                        }
                    }
                    from = jj + 1;
                }
            },
        }
    }
}

/// The sentence spoken for a weather report, from the description and the
/// temperature the weather collaborator returned.
pub fn weather_report(desc: &str, temp_c: &str) -> (r: String)
    ensures
        r@ == "The current weather is "@ + desc@ + " with a temperature of "@ + temp_c@
            + "\u{b0}C."@,
{
    let mut out = String::from_str("The current weather is ");
    out.append(desc);
    out.append(" with a temperature of ");
    out.append(temp_c);
    out.append("\u{b0}C.");
    proof {
        assert(out@ =~= "The current weather is "@ + desc@ + " with a temperature of "@ + temp_c@
            + "\u{b0}C."@);
    }
    out
}

} // verus!
