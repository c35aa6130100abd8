//! Input and output device selection.
//!
//! The surrounding application enumerates the devices the host offers and
//! hands their names over; the library decides which one to use. A name
//! query selects the first device whose name contains the query,
//! case-insensitively. Without a query, or when no name matches, an input
//! device is chosen by the configured index, falling back to the first
//! device when that index is out of range; only an empty device list fails.

use vstd::prelude::*;

use crate::text::{contains_ignore_case, contains_sub, lower_of};

verus! {

/// A device name matches a query when its lowercase form contains the
/// query's lowercase form.
pub open spec fn name_matches(name: Seq<char>, query: Seq<char>) -> bool {
    contains_sub(lower_of(name), lower_of(query))
}

/// The first device from position `i` on whose name matches the query.
pub open spec fn first_match_from(names: Seq<Seq<char>>, query: Seq<char>, i: int) -> Option<int>
    decreases names.len() - i,
        when 0 <= i <= names.len()
{
    if i >= names.len() {
        None
    } else if name_matches(names[i], query) {
        Some(i)
    } else {
        first_match_from(names, query, i + 1)
    }
}

/// The input device the capture stream opens: the first name match if a
/// query is given and any name matches; otherwise the configured index,
/// falling back to the first device when the index is out of range. Only an
/// empty device list selects nothing.
pub open spec fn spec_select_input(
    names: Seq<Seq<char>>,
    query: Option<Seq<char>>,
    index: int,
) -> Option<int> {
    if names.len() == 0 {
        None
    } else {
        let by_name = match query {
            Some(q) => first_match_from(names, q, 0),
            None => None,
        };
        match by_name {
            Some(i) => Some(i),
            None => Some(
                if 0 <= index < names.len() {
                    index
                } else {
                    0
                },
            ),
        }
    }
}

fn first_matching(names: &Vec<String>, query: &String) -> (r: Option<usize>)
    ensures
        match r {
            Some(i) => i < names@.len() && first_match_from(names.deep_view(), query@, 0)
                == Some(i as int),
            None => first_match_from(names.deep_view(), query@, 0) is None,
        },
{
    let n = names.len();
    let mut i: usize = 0;
    while i < n
        invariant
            i <= n,
            n == names@.len(),
            first_match_from(names.deep_view(), query@, 0) == first_match_from(
                names.deep_view(),
                query@,
                i as int,
            ),
        decreases n - i,
    {
        proof {
            assert(names.deep_view()[i as int] == names@[i as int]@);
        }
        if contains_ignore_case(names[i].as_str(), query.as_str()) {
            return Some(i);
        }
        i += 1;
    }
    None
}

/// Choose the input device, by name query first, then by index with its
/// fallback to the first device.
pub fn select_input_device(names: &Vec<String>, query: &Option<String>, index: usize) -> (r: Option<
    usize,
>)
    ensures
        ({
            let chosen = spec_select_input(
                names.deep_view(),
                match query {
                    Some(q) => Some(q@),
                    None => None,
                },
                index as int,
            );
            match r {
                Some(sel) => chosen == Some(sel as int) && sel < names@.len(),
                None => chosen is None && names@.len() == 0,
            }
        }),
{
    if names.len() == 0 {
        return None;
    }
    if let Some(q) = query {
        if let Some(i) = first_matching(names, q) {
            return Some(i);
        }
    }
    if index < names.len() {
        Some(index)
    } else {
        Some(0)
    }
}

/// Choose the playback device by name: the first device whose name contains
/// the query, case-insensitively. Without a query, or when nothing matches,
/// the host's default output is used instead, which no index names.
pub fn select_output_device(names: &Vec<String>, query: &Option<String>) -> (r: Option<usize>)
    ensures
        ({
            match query {
                Some(q) => match r {
                    Some(sel) => sel < names@.len() && first_match_from(names.deep_view(), q@, 0)
                        == Some(sel as int),
                    None => first_match_from(names.deep_view(), q@, 0) is None,
                },
                None => r is None,
            }
        }),
{
    match query {
        Some(q) => first_matching(names, q),
        None => None,
    }
}

} // verus!
