//! Searching text with regular expressions of the `regex` crate.
use vstd::prelude::*;

use crate::models::opt_view;

verus! {

/// Whether `pattern` compiles as a regular expression of the `regex` crate
/// (`Regex::new` succeeds).
pub uninterp spec fn regex_is_valid(pattern: Seq<char>) -> bool;

/// Group 1 of the leftmost match of `pattern` in `haystack`, as the `regex`
/// crate finds it (`Regex::captures`); `None` without a match.
pub uninterp spec fn regex_first_capture(pattern: Seq<char>, haystack: Seq<char>) -> Option<Seq<char>>;

/// Group 1 of each of the successive non-overlapping matches of `pattern`
/// in `haystack`, in order, as the `regex` crate finds them
/// (`Regex::captures_iter`); `None` for a match in which group 1 took no
/// part.
pub uninterp spec fn regex_group1_captures(pattern: Seq<char>, haystack: Seq<char>) -> Seq<Option<Seq<char>>>;

/// `regex::Regex::new(pattern)`, then `Regex::captures(haystack)` and its
/// group 1. The contract names the result of a compiled pattern and claims
/// nothing of the regex semantics; a pattern that does not compile gives the
/// crate's error message.
#[verifier::external_body]
pub fn first_capture(pattern: &str, haystack: &str) -> (r: Result<Option<String>, String>)
    ensures
        r is Ok <==> regex_is_valid(pattern@),
        r matches Ok(o) ==> opt_view(o) == regex_first_capture(pattern@, haystack@),
{
    match regex::Regex::new(pattern) {
        Ok(re) => Ok(re.captures(haystack).and_then(|c| c.get(1)).map(|m| m.as_str().to_string())),
        Err(e) => Err(e.to_string()),
    }
}

/// The views of a sequence of optional strings.
pub open spec fn opt_views(v: Seq<Option<String>>) -> Seq<Option<Seq<char>>> {
    v.map_values(|o: Option<String>| opt_view(o))
}

/// `regex::Regex::new(pattern)`, then group 1 of every item of
/// `Regex::captures_iter(haystack)`, in order. The contract names the result
/// of a compiled pattern and claims nothing of the regex semantics; a
/// pattern that does not compile gives the crate's error message.
#[verifier::external_body]
pub fn all_captures(pattern: &str, haystack: &str) -> (r: Result<Vec<Option<String>>, String>)
    ensures
        r is Ok <==> regex_is_valid(pattern@),
        r matches Ok(v) ==> opt_views(v@) == regex_group1_captures(pattern@, haystack@),
{
    match regex::Regex::new(pattern) {
        Ok(re) => Ok(re.captures_iter(haystack).map(|c| c.get(1).map(|m| m.as_str().to_string())).collect()),
        Err(e) => Err(e.to_string()),
    }
}

/// The group 1 of the last match, if there is a match and group 1 took part
/// in it.
pub open spec fn last_of(found: Seq<Option<Seq<char>>>) -> Option<Seq<char>> {
    if found.len() == 0 {
        None
    } else {
        found.last()
    }
}

/// Keeps the capture of the last match of a search: `None` without a match.
pub fn last_found(found: Result<Vec<Option<String>>, String>) -> (r: Result<Option<String>, String>)
    ensures
        match found {
            Err(m) => r matches Err(x) && x@ == m@,
            Ok(v) => r matches Ok(o) && opt_view(o) == last_of(opt_views(v@)),
        },
{
    match found {
        Err(m) => Err(m),
        Ok(mut v) => {
            let ghost all = v@;
            match v.pop() {
                None => Ok(None),
                Some(last) => {
                    assert(last == all.last());
                    Ok(last)
                },
            }
        },
    }
}

} // verus!
