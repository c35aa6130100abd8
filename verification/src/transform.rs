//! Prompt and response transforms.
//!
//! Spoken prompts can carry commands — media keys, forgetting the
//! conversation, a weather request, a paste request — detected as
//! case-insensitive whole-word phrases. Responses can carry a copy directive
//! whose content goes to the clipboard and is removed from the spoken text.
//! The clipboard and key presses themselves belong to the surrounding
//! application; the decisions are made here.
//!
//! Phrase detection folds ASCII case and takes ASCII letters, digits and the
//! underscore as word characters when judging word boundaries.

use vstd::prelude::*;

use crate::text::{chars_of, matches_at, string_from_chars};

verus! {

/// ASCII word characters, for word-boundary checks.
pub open spec fn is_word_char(c: char) -> bool {
    ('a' <= c && c <= 'z') || ('A' <= c && c <= 'Z') || ('0' <= c && c <= '9') || c == '_'
}

pub fn is_word_char_exec(c: char) -> (r: bool)
    ensures
        r == is_word_char(c),
{
    ('a' <= c && c <= 'z') || ('A' <= c && c <= 'Z') || ('0' <= c && c <= '9') || c == '_'
}

/// A pattern character (ASCII lowercase) matches a text character, folding
/// ASCII case.
pub open spec fn char_matches_ci(p: char, t: char) -> bool {
    t == p || ('A' <= t && t <= 'Z' && (t as u32) + 32 == (p as u32))
}

/// The phrase occurs at position `j` as a whole word: every character
/// matches with ASCII case folded, and no word character directly borders
/// the occurrence.
pub open spec fn phrase_at(text: Seq<char>, phrase: Seq<char>, j: int) -> bool {
    &&& 0 <= j
    &&& j + phrase.len() <= text.len()
    &&& (forall|k: int| 0 <= k < phrase.len() ==> char_matches_ci(phrase[k], text[j + k]))
    &&& (j == 0 || !is_word_char(text[j - 1]))
    &&& (j + phrase.len() == text.len() || !is_word_char(text[j + phrase.len()]))
}

/// The phrase occurs somewhere in the text as a whole word.
pub open spec fn contains_phrase(text: Seq<char>, phrase: Seq<char>) -> bool {
    exists|j: int| phrase_at(text, phrase, j)
}

fn phrase_at_exec(text: &Vec<char>, phrase: &Vec<char>, j: usize) -> (r: bool)
    requires
        j + phrase@.len() <= text@.len(),
    ensures
        r == phrase_at(text@, phrase@, j as int),
{
    let n = text.len();
    let m = phrase.len();
    if j > 0 && is_word_char_exec(text[j - 1]) {
        return false;
    }
    if j + m < n && is_word_char_exec(text[j + m]) {
        return false;
    }
    let mut k: usize = 0;
    while k < m
        invariant
            k <= m,
            m == phrase@.len(),
            n == text@.len(),
            j + m <= n,
            forall|i: int| 0 <= i < k ==> char_matches_ci(phrase@[i], text@[j + i]),
        decreases m - k,
    {
        let p = phrase[k];
        let t = text[j + k];
        let ok = t == p || ('A' <= t && t <= 'Z' && (t as u32) + 32 == (p as u32));
        if !ok {
            proof {
                assert(!char_matches_ci(phrase@[k as int], text@[j + k]));
            }
            return false;
        }
        k += 1;
    }
    true
}

/// Whole-word, case-folded search for one phrase.
pub fn contains_phrase_exec(text: &Vec<char>, phrase: &Vec<char>) -> (r: bool)
    ensures
        r == contains_phrase(text@, phrase@),
{
    let n = text.len();
    let m = phrase.len();
    if m > n {
        proof {
            assert(forall|j: int| !phrase_at(text@, phrase@, j));
        }
        return false;
    }
    let last = n - m;
    let mut j: usize = 0;
    loop
        invariant
            j <= last,
            m == phrase@.len(),
            n == text@.len(),
            m <= n,
            last == n - m,
            forall|i: int| 0 <= i < j ==> !phrase_at(text@, phrase@, i),
        ensures
            forall|i: int| !phrase_at(text@, phrase@, i),
        decreases last - j,
    {
        if phrase_at_exec(text, phrase, j) {
            return true;
        }
        if j == last {
            proof {
                assert forall|i: int| !phrase_at(text@, phrase@, i) by {
                    if i > last {
                        assert(i + phrase@.len() > text@.len());
                    }
                }
            }
            break ;
        }
        j += 1;
    }
    false
}

fn prompt_has_phrase(prompt: &str, phrase: &str) -> (r: bool)
    ensures
        r == contains_phrase(prompt@, phrase@),
{
    let t = chars_of(prompt);
    let p = chars_of(phrase);
    contains_phrase_exec(&t, &p)
}

/// Whether the prompt asks to forget the conversation history.
pub fn contains_forget(prompt: &str) -> (r: bool)
    ensures
        r == (contains_phrase(prompt@, "forget"@) || contains_phrase(prompt@, "erase memories"@)
            || contains_phrase(prompt@, "erase memory"@)),
{
    prompt_has_phrase(prompt, "forget") || prompt_has_phrase(prompt, "erase memories")
        || prompt_has_phrase(prompt, "erase memory")
}

/// Whether the prompt asks for the next track.
pub fn skip_track_requested(prompt: &str) -> (r: bool)
    ensures
        r == (contains_phrase(prompt@, "skip track"@) || contains_phrase(prompt@, "next music"@)),
{
    prompt_has_phrase(prompt, "skip track") || prompt_has_phrase(prompt, "next music")
}

/// Whether the prompt asks to pause playback.
pub fn pause_music_requested(prompt: &str) -> (r: bool)
    ensures
        r == (contains_phrase(prompt@, "pause music"@) || contains_phrase(prompt@, "pause"@)),
{
    prompt_has_phrase(prompt, "pause music") || prompt_has_phrase(prompt, "pause")
}

/// Whether the prompt asks to start playback.
pub fn play_music_requested(prompt: &str) -> (r: bool)
    ensures
        r == (contains_phrase(prompt@, "play music"@) || contains_phrase(prompt@, "play"@)),
{
    prompt_has_phrase(prompt, "play music") || prompt_has_phrase(prompt, "play")
}

/// Whether the prompt asks for the previous track.
pub fn previous_track_requested(prompt: &str) -> (r: bool)
    ensures
        r == (contains_phrase(prompt@, "previous track"@) || contains_phrase(
            prompt@,
            "last music"@,
        ) || contains_phrase(prompt@, "previous music"@) || contains_phrase(
            prompt@,
            "last track"@,
        )),
{
    prompt_has_phrase(prompt, "previous track") || prompt_has_phrase(prompt, "last music")
        || prompt_has_phrase(prompt, "previous music") || prompt_has_phrase(prompt, "last track")
}

/// Whether the prompt asks for the weather.
pub fn contains_weather_request(prompt: &str) -> (r: bool)
    ensures
        r == (contains_phrase(prompt@, "weather"@) || contains_phrase(
            prompt@,
            "what is the weather"@,
        )),
{
    prompt_has_phrase(prompt, "weather") || prompt_has_phrase(prompt, "what is the weather")
}

/// The copy directive's opening tag.
pub open spec fn copy_open() -> Seq<char> {
    seq!['[', '[', 'c', 'o', 'p', 'y', ']', ']']
}

/// The copy directive's closing tag.
pub open spec fn copy_close() -> Seq<char> {
    seq!['[', '[', '/', 'c', 'o', 'p', 'y', ']', ']']
}

/// First occurrence of a non-empty pattern at or after `from`.
pub open spec fn first_occurrence(s: Seq<char>, pat: Seq<char>, from: int) -> Option<int>
    decreases s.len() - from,
        when from >= 0 && pat.len() >= 1
{
    if from + pat.len() > s.len() {
        None
    } else if matches_at(s, pat, from) {
        Some(from)
    } else {
        first_occurrence(s, pat, from + 1)
    }
}

/// The text with every copy directive removed: from each opening tag to the
/// earliest closing tag after it, tags and content go; an unpaired opening
/// tag stays.
pub open spec fn strip_copy_from(s: Seq<char>, i: int) -> Seq<char>
    decreases s.len() - i,
        when 0 <= i <= s.len() via strip_copy_from_decreases
{
    match first_occurrence(s, copy_open(), i) {
        None => s.subrange(i, s.len() as int),
        Some(j) => match first_occurrence(s, copy_close(), j + 8) {
            None => s.subrange(i, s.len() as int),
            Some(k) => s.subrange(i, j) + strip_copy_from(s, k + 9),
        },
    }
}

#[via_fn]
proof fn strip_copy_from_decreases(s: Seq<char>, i: int) {
    if 0 <= i <= s.len() {
        match first_occurrence(s, copy_open(), i) {
            None => {},
            Some(j) => {
                lemma_first_occurrence_bounds(s, copy_open(), i);
                match first_occurrence(s, copy_close(), j + 8) {
                    None => {},
                    Some(k) => {
                        lemma_first_occurrence_bounds(s, copy_close(), j + 8);
                    },
                }
            },
        }
    }
}

/// The exec search agrees with the spec-level first occurrence.
proof fn lemma_first_occurrence_agrees(s: Seq<char>, pat: Seq<char>, from: int, r: Option<int>)
    requires
        from >= 0,
        pat.len() >= 1,
        match r {
            Some(j) => from <= j && matches_at(s, pat, j) && forall|i: int|
                from <= i < j ==> !matches_at(s, pat, i),
            None => forall|i: int| from <= i ==> !matches_at(s, pat, i),
        },
    ensures
        first_occurrence(s, pat, from) == r,
    decreases s.len() - from,
{
    if from + pat.len() > s.len() {
        match r {
            Some(j) => {
                assert(matches_at(s, pat, j));
                assert(j + pat.len() <= s.len());
                assert(false);
            },
            None => {},
        }
    } else if matches_at(s, pat, from) {
        match r {
            Some(j) => {
                if j != from {
                    assert(!matches_at(s, pat, from));
                    assert(false);
                }
            },
            None => {
                assert(!matches_at(s, pat, from));
                assert(false);
            },
        }
    } else {
        lemma_first_occurrence_agrees(s, pat, from + 1, r);
    }
}

/// The bounds a spec-level first occurrence obeys.
proof fn lemma_first_occurrence_bounds(s: Seq<char>, pat: Seq<char>, from: int)
    requires
        from >= 0,
        pat.len() >= 1,
        first_occurrence(s, pat, from) is Some,
    ensures
        ({
            let j = first_occurrence(s, pat, from)->0;
            from <= j && matches_at(s, pat, j)
        }),
    decreases s.len() - from,
{
    if from + pat.len() > s.len() {
    } else if matches_at(s, pat, from) {
    } else {
        lemma_first_occurrence_bounds(s, pat, from + 1);
    }
}

/// Scan a response for a copy directive: the content of the first directive
/// (what goes to the clipboard), and the text with every directive removed
/// (what is spoken and shown).
pub fn extract_copy_directive(text: &str) -> (r: (Option<String>, String))
    ensures
        r.1@ == strip_copy_from(text@, 0),
        ({
            let first = first_occurrence(text@, copy_open(), 0);
            match first {
                Some(j) => match first_occurrence(text@, copy_close(), j + 8) {
                    Some(k) => (match r.0 {
                        Some(c) => c@ == text@.subrange(j + 8, k),
                        None => false,
                    }),
                    None => r.0 is None,
                },
                None => r.0 is None,
            }
        }),
{
    proof {
        reveal_strlit("[[copy]]");
        reveal_strlit("[[/copy]]");
        assert("[[copy]]"@ =~= copy_open());
        assert("[[/copy]]"@ =~= copy_close());
    }
    let v = chars_of(text);
    let open = chars_of("[[copy]]");
    let close = chars_of("[[/copy]]");
    let n = v.len();

    // the first directive's content
    let content: Option<String> = match crate::text::find_sub_from(&v, &open, 0) {
        Some(j) => {
            proof {
                lemma_first_occurrence_agrees(v@, copy_open(), 0, Some(j as int));
            }
            match crate::text::find_sub_from(&v, &close, j + 8) {
                Some(k) => {
                    proof {
                        lemma_first_occurrence_agrees(v@, copy_close(), j + 8, Some(k as int));
                    }
                    let mut c: Vec<char> = Vec::new();
                    let mut i = j + 8;
                    while i < k
                        invariant
                            j + 8 <= i <= k,
                            k <= n == v@.len(),
                            c@ =~= v@.subrange(j + 8, i as int),
                        decreases k - i,
                    {
                        c.push(v[i]);
                        proof {
                            assert(c@ =~= v@.subrange(j + 8, i + 1));
                        }
                        i += 1;
                    }
                    Some(string_from_chars(&c))
                },
                None => {
                    proof {
                        lemma_first_occurrence_agrees(v@, copy_close(), j + 8, None);
                    }
                    None
                },
            }
        },
        None => {
            proof {
                lemma_first_occurrence_agrees(v@, copy_open(), 0, None);
            }
            None
        },
    };

    // the text with every directive removed
    let mut out: Vec<char> = Vec::new();
    let mut i: usize = 0;
    loop
        invariant_except_break
            out@ + strip_copy_from(v@, i as int) == strip_copy_from(v@, 0),
        invariant
            i <= n,
            n == v@.len(),
            open@ == copy_open(),
            close@ == copy_close(),
        ensures
            out@ == strip_copy_from(v@, 0),
        decreases n - i,
    {
        let found_open = crate::text::find_sub_from(&v, &open, i);
        match found_open {
            Some(j) => {
                proof {
                    lemma_first_occurrence_agrees(v@, copy_open(), i as int, Some(j as int));
                }
                let found_close = crate::text::find_sub_from(&v, &close, j + 8);
                match found_close {
                    Some(k) => {
                        proof {
                            lemma_first_occurrence_agrees(
                                v@,
                                copy_close(),
                                j + 8,
                                Some(k as int),
                            );
                            assert(strip_copy_from(v@, i as int) == v@.subrange(i as int, j as int)
                                + strip_copy_from(v@, k + 9));
                        }
                        let mut p = i;
                        while p < j
                            invariant
                                i <= p <= j,
                                j <= n,
                                n == v@.len(),
                                k + 9 <= n,
                                out@ + (v@.subrange(p as int, j as int) + strip_copy_from(
                                    v@,
                                    k + 9,
                                )) == strip_copy_from(v@, 0),
                            decreases j - p,
                        {
                            let ghost prev = out@;
                            out.push(v[p]);
                            proof {
                                assert(prev + v@.subrange(p as int, j as int) =~= out@
                                    + v@.subrange(p + 1, j as int));
                                assert(prev + (v@.subrange(p as int, j as int) + strip_copy_from(
                                    v@,
                                    k + 9,
                                )) =~= out@ + (v@.subrange(p + 1, j as int) + strip_copy_from(
                                    v@,
                                    k + 9,
                                )));
                            }
                            p += 1;
                        }
                        proof {
                            assert(out@ + (v@.subrange(j as int, j as int) + strip_copy_from(
                                v@,
                                k + 9,
                            )) =~= out@ + strip_copy_from(v@, k + 9));
                        }
                        i = k + 9;
                    },
                    None => {
                        proof {
                            lemma_first_occurrence_agrees(v@, copy_close(), j + 8, None);
                        }
                        let mut p = i;
                        while p < n
                            invariant
                                i <= p <= n,
                                n == v@.len(),
                                out@ + v@.subrange(p as int, n as int) == strip_copy_from(v@, 0),
                            decreases n - p,
                        {
                            let ghost prev = out@;
                            out.push(v[p]);
                            proof {
                                assert(prev + v@.subrange(p as int, n as int) =~= out@
                                    + v@.subrange(p + 1, n as int));
                            }
                            p += 1;
                        }
                        proof {
                            assert(v@.subrange(n as int, n as int) =~= Seq::<char>::empty());
                            assert(out@ + Seq::<char>::empty() =~= out@);
                        }
                        break ;
                    },
                }
            },
            None => {
                proof {
                    lemma_first_occurrence_agrees(v@, copy_open(), i as int, None);
                }
                let mut p = i;
                while p < n
                    invariant
                        i <= p <= n,
                        n == v@.len(),
                        out@ + v@.subrange(p as int, n as int) == strip_copy_from(v@, 0),
                    decreases n - p,
                {
                    let ghost prev = out@;
                    out.push(v[p]);
                    proof {
                        assert(prev + v@.subrange(p as int, n as int) =~= out@ + v@.subrange(
                            p + 1,
                            n as int,
                        ));
                    }
                    p += 1;
                }
                proof {
                    assert(v@.subrange(n as int, n as int) =~= Seq::<char>::empty());
                    assert(out@ + Seq::<char>::empty() =~= out@);
                }
                break ;
            },
        }
    }
    (content, string_from_chars(&out))
}

/// Whether a regular-expression pattern compiles; a function of the pattern
/// alone.
pub uninterp spec fn regex_compiles(pattern: Seq<char>) -> bool;

/// What regex matching answers for a pattern and a text; a function of the
/// two alone.
pub uninterp spec fn regex_match_of(pattern: Seq<char>, text: Seq<char>) -> bool;

/// What replacing every regex match leaves of a text (with the replacement's
/// group references expanded); a function of the three alone.
pub uninterp spec fn regex_replace_all_of(
    pattern: Seq<char>,
    text: Seq<char>,
    rep: Seq<char>,
) -> Seq<char>;

/// Relies on regex::Regex::new and Regex::is_match: compiling depends on the
/// pattern alone, and matching on the pattern and the text alone.
#[verifier::external_body]
fn regex_is_match(pattern: &str, text: &str) -> (r: Option<bool>)
    ensures
        r is Some <==> regex_compiles(pattern@),
        r matches Some(b) ==> b == regex_match_of(pattern@, text@),
{
    match regex::Regex::new(pattern) {
        Ok(re) => Some(re.is_match(text)),
        Err(_) => None,
    }
}

/// Relies on regex::Regex::new and Regex::replace_all: the replaced text
/// depends on the pattern, the text and the replacement alone.
#[verifier::external_body]
fn regex_replace_all(pattern: &str, text: &str, rep: &str) -> (r: Option<String>)
    ensures
        r is Some <==> regex_compiles(pattern@),
        r matches Some(s) ==> s@ == regex_replace_all_of(pattern@, text@, rep@),
{
    match regex::Regex::new(pattern) {
        Ok(re) => Some(re.replace_all(text, rep).into_owned()),
        Err(_) => None,
    }
}

/// The paste-request pattern: spoken paste-shortcut phrases in several
/// languages, matched case-insensitively on word boundaries. The alternation
/// is kept verbatim, embedded layout whitespace included.
pub fn paste_command_pattern() -> (r: &'static str)
    ensures
        r@ == (
        "(?i)\\b(\n            ctrl\\+v|control v|control-v|control\\+v|\n            strg\\+v|steuerung v|steuerung-v|steuerung\\+v|\n            cmd\\+v|command\\+v|command v|command-v|\n            contr\u{f4}le\\+v|controle\\+v|\n            \u{43a}\u{43e}\u{43d}\u{442}\u{440}(\u{43e}\u{43b})?\\+v|\u{43a}\u{43e}\u{43d}\u{442}\u{440}(\u{43e}\u{43b})? v|\n            \u{63a7}\u{5236}\\+v|\n            \u{30b7}\u{30fc}\\+v|\n            ctr\\+v|\n            control\\+y|control y|control-y|ctrl\\+y|\n            ctrl\\+ins|control\\+ins|control ins|control-ins|\n            shift\\+insert|shift\\+ins|shift insert|shift-ins|\n            cmd\\+ins|command\\+ins|command ins|command-ins\n        )\\b")@,
{
    "(?i)\\b(\n            ctrl\\+v|control v|control-v|control\\+v|\n            strg\\+v|steuerung v|steuerung-v|steuerung\\+v|\n            cmd\\+v|command\\+v|command v|command-v|\n            contr\u{f4}le\\+v|controle\\+v|\n            \u{43a}\u{43e}\u{43d}\u{442}\u{440}(\u{43e}\u{43b})?\\+v|\u{43a}\u{43e}\u{43d}\u{442}\u{440}(\u{43e}\u{43b})? v|\n            \u{63a7}\u{5236}\\+v|\n            \u{30b7}\u{30fc}\\+v|\n            ctr\\+v|\n            control\\+y|control y|control-y|ctrl\\+y|\n            ctrl\\+ins|control\\+ins|control ins|control-ins|\n            shift\\+insert|shift\\+ins|shift insert|shift-ins|\n            cmd\\+ins|command\\+ins|command ins|command-ins\n        )\\b"
}

/// Whether the prompt contains a spoken paste request. When the pattern does
/// not compile, nothing is detected.
pub fn detects_paste_command(prompt: &str) -> (r: bool)
    ensures
        ({
            let pat = paste_pattern_view();
            &&& regex_compiles(pat) ==> r == regex_match_of(pat, prompt@)
            &&& !regex_compiles(pat) ==> r == false
        }),
{
    match regex_is_match(paste_command_pattern(), prompt) {
        Some(b) => b,
        None => false,
    }
}

/// The paste pattern's characters, for the contracts above.
pub open spec fn paste_pattern_view() -> Seq<char> {
    (
    "(?i)\\b(\n            ctrl\\+v|control v|control-v|control\\+v|\n            strg\\+v|steuerung v|steuerung-v|steuerung\\+v|\n            cmd\\+v|command\\+v|command v|command-v|\n            contr\u{f4}le\\+v|controle\\+v|\n            \u{43a}\u{43e}\u{43d}\u{442}\u{440}(\u{43e}\u{43b})?\\+v|\u{43a}\u{43e}\u{43d}\u{442}\u{440}(\u{43e}\u{43b})? v|\n            \u{63a7}\u{5236}\\+v|\n            \u{30b7}\u{30fc}\\+v|\n            ctr\\+v|\n            control\\+y|control y|control-y|ctrl\\+y|\n            ctrl\\+ins|control\\+ins|control ins|control-ins|\n            shift\\+insert|shift\\+ins|shift insert|shift-ins|\n            cmd\\+ins|command\\+ins|command ins|command-ins\n        )\\b")@
}

/// Replace every spoken paste request in the prompt with the clipboard text.
/// When the pattern does not compile, the prompt is returned unchanged.
pub fn substitute_paste_command(prompt: &str, clipboard: &str) -> (r: String)
    ensures
        ({
            let pat = paste_pattern_view();
            &&& regex_compiles(pat) ==> r@ == regex_replace_all_of(pat, prompt@, clipboard@)
            &&& !regex_compiles(pat) ==> r@ == prompt@
        }),
{
    match regex_replace_all(paste_command_pattern(), prompt, clipboard) {
        Some(s) => s,
        None => {
            let v = chars_of(prompt);
            string_from_chars(&v)
        },
    }
}

} // verus!
