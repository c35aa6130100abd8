//! Conversation history text.
//!
//! Reading and writing the history files is the surrounding application's
//! business; this module holds the text the files and the language-model
//! context are built from: the context window over the most recent turns,
//! the seed for a generated title, and the file-name rules for renamed
//! conversations.

use vstd::prelude::*;
use vstd::string::StringExecFns;

use crate::text::{
    chars_of, ends_with_seq, lower_of, lowercase, matches_at, rfind_sub, string_from_chars,
    upper_of, uppercase,
};

verus! {

/// One conversation turn as the observer-facing event payload carries it.
#[derive(Clone, Debug)]
pub struct TurnDto {
    pub role: String,
    pub content: String,
    pub created_at: i64,
}

/// One conversation turn as the history files store it.
#[derive(Clone, Debug)]
pub struct ConversationTurn {
    pub role: String,
    pub content: String,
}

/// How many of the most recent turns enter the language-model context.
pub const CONTEXT_WINDOW_TURNS: usize = 12;

/// How many of the first turns seed a generated conversation title.
pub const TITLE_SEED_TURNS: usize = 4;

/// One line of context: the role upper-cased, a colon, the content, a
/// newline.
pub open spec fn turn_line(role: Seq<char>, content: Seq<char>) -> Seq<char> {
    upper_of(role) + ": "@ + content + "\n"@
}

/// The context lines for a block of turns, in order.
pub open spec fn context_text(turns: Seq<TurnDto>) -> Seq<char>
    decreases turns.len(),
{
    if turns.len() == 0 {
        Seq::empty()
    } else {
        turn_line(turns[0].role@, turns[0].content@) + context_text(turns.skip(1))
    }
}

/// The context window: the lines of the last twelve turns.
pub open spec fn context_window(turns: Seq<TurnDto>) -> Seq<char> {
    context_text(
        turns.skip(
            if turns.len() > 12 {
                turns.len() - 12
            } else {
                0
            },
        ),
    )
}

/// Build the language-model context from a conversation: one line per turn,
/// over the last twelve turns.
pub fn build_context_text(turns: &Vec<TurnDto>) -> (r: String)
    ensures
        r@ == context_window(turns@),
{
    let len = turns.len();
    let start = if len > CONTEXT_WINDOW_TURNS {
        len - CONTEXT_WINDOW_TURNS
    } else {
        0
    };
    let mut out = String::new();
    let mut i = start;
    while i < len
        invariant
            start <= i <= len,
            len == turns@.len(),
            out@ + context_text(turns@.skip(i as int)) == context_text(turns@.skip(start as int)),
        decreases len - i,
    {
        proof {
            assert(turns@.skip(i as int)[0] == turns@[i as int]);
            assert(turns@.skip(i as int).skip(1) =~= turns@.skip(i + 1));
        }
        let role_upper = uppercase(turns[i].role.as_str());
        out.append(role_upper.as_str());
        out.append(": ");
        out.append(turns[i].content.as_str());
        out.append("\n");
        i += 1;
    }
    proof {
        assert(context_text(turns@.skip(len as int)) =~= Seq::<char>::empty());
        assert(out@ =~= context_window(turns@));
    }
    out
}

/// The contents of a block of turns, each followed by a newline.
pub open spec fn seed_concat(turns: Seq<TurnDto>) -> Seq<char>
    decreases turns.len(),
{
    if turns.len() == 0 {
        Seq::empty()
    } else {
        turns[0].content@ + "\n"@ + seed_concat(turns.skip(1))
    }
}

/// The snippet a conversation title is generated from: the contents of the
/// first four turns, or a fixed placeholder for an empty conversation.
pub fn build_title_seed(turns: &Vec<TurnDto>) -> (r: String)
    ensures
        turns@.len() == 0 ==> r@ == "New conversation"@,
        turns@.len() > 0 ==> r@ == seed_concat(
            turns@.take(
                if turns@.len() > 4 {
                    4
                } else {
                    turns@.len() as int
                },
            ),
        ),
{
    let len = turns.len();
    if len == 0 {
        return String::from_str("New conversation");
    }
    let end = if len > TITLE_SEED_TURNS {
        TITLE_SEED_TURNS
    } else {
        len
    };
    let ghost seed_turns = turns@.take(end as int);
    let mut out = String::new();
    let mut i: usize = 0;
    proof {
        assert(seed_turns.skip(0) =~= seed_turns);
    }
    while i < end
        invariant
            i <= end <= len,
            len == turns@.len(),
            seed_turns == turns@.take(end as int),
            out@ + seed_concat(seed_turns.skip(i as int)) == seed_concat(seed_turns),
        decreases end - i,
    {
        proof {
            assert(seed_turns.skip(i as int)[0] == turns@[i as int]);
            assert(seed_turns.skip(i as int).skip(1) =~= seed_turns.skip(i + 1));
        }
        out.append(turns[i].content.as_str());
        out.append("\n");
        i += 1;
    }
    proof {
        assert(seed_concat(seed_turns.skip(end as int)) =~= Seq::<char>::empty());
        assert(out@ =~= seed_concat(seed_turns));
    }
    out
}

/// `.json` suffixes removed from the end, repeatedly
/// (str::trim_end_matches).
pub open spec fn strip_json_ext(s: Seq<char>) -> Seq<char>
    decreases s.len(),
{
    if s.len() >= 5 && ends_with_seq(s, ".json"@) {
        strip_json_ext(s.take(s.len() - 5))
    } else {
        s
    }
}

/// The timestamp stem of a conversation file name of the form
/// `<title> - <timestamp>.json`: what follows the last " - " once the
/// extension is stripped. Without a " - " there is no stem, and the caller
/// falls back to a fresh timestamp.
pub fn extract_timestamp_stem(name: &str) -> (r: Option<String>)
    ensures
        ({
            let stripped = strip_json_ext(name@);
            match r {
                Some(stem) => exists|j: int|
                    #[trigger] matches_at(stripped, " - "@, j) && (forall|i: int|
                        i > j ==> !matches_at(stripped, " - "@, i)) && stem@ == stripped.subrange(
                        j + 3,
                        stripped.len() as int,
                    ),
                None => forall|j: int| !matches_at(stripped, " - "@, j),
            }
        }),
{
    proof {
        reveal_strlit(".json");
        reveal_strlit(" - ");
    }
    let mut v = chars_of(name);
    let ext = chars_of(".json");
    loop
        invariant
            ext@ == ".json"@,
            strip_json_ext(name@) == strip_json_ext(v@),
        ensures
            strip_json_ext(name@) == v@,
        decreases v@.len(),
    {
        let n = v.len();
        if n >= 5 {
            let e = crate::text::ends_with_chars(&v, &ext);
            if e {
                v.truncate(n - 5);
                continue;
            }
        }
        break;
    }
    let sep = chars_of(" - ");
    match rfind_sub(&v, &sep) {
        Some(j) => {
            let n = v.len();
            let mut stem: Vec<char> = Vec::new();
            let mut i = j + 3;
            while i < n
                invariant
                    j + 3 <= i <= n,
                    n == v@.len(),
                    stem@ =~= v@.subrange(j + 3, i as int),
                decreases n - i,
            {
                stem.push(v[i]);
                proof {
                    assert(stem@ =~= v@.subrange(j + 3, i + 1));
                }
                i += 1;
            }
            Some(string_from_chars(&stem))
        },
        None => None,
    }
}

/// The file name of a renamed conversation: the sanitized title, " - ", the
/// timestamp stem, ".json".
pub fn conversation_filename(title: &str, ts: &str) -> (r: String)
    ensures
        r@ == title@ + " - "@ + ts@ + ".json"@,
{
    let mut out = String::from_str(title);
    out.append(" - ");
    out.append(ts);
    out.append(".json");
    proof {
        assert(out@ =~= title@ + " - "@ + ts@ + ".json"@);
    }
    out
}

/// Whether a title is the reserved placeholder "New Conversation" (in any
/// case), which renaming refuses because fresh conversations are recognized
/// by it.
pub fn is_reserved_title(title: &str) -> (r: bool)
    ensures
        r == (lower_of(title@) == "new conversation"@),
{
    let lowered = lowercase(title);
    let reserved = String::from_str("new conversation");
    lowered == reserved
}

} // verus!
