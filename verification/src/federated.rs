//! ClickHouse-dialect federation helpers for the HTTP front end: recognizing
//! the trailing `FORMAT <name>` clause of a query.

use vstd::prelude::*;

verus! {

/// What the first capture group of a regex yields on a haystack, if the
/// pattern compiles and matches: a pure function of the pattern and the text.
pub uninterp spec fn regex_first_capture(pattern: Seq<char>, text: Seq<char>) -> Option<Seq<char>>;

/// Relies on regex::Regex: `Regex::new(pattern)`, `Regex::captures(text)` and
/// `Captures::get(1)` compute a deterministic function of the two strings;
/// the result is the text of the first capture group of the leftmost match,
/// or nothing when the pattern does not compile, does not match, or the group
/// did not participate.
#[verifier::external_body]
fn regex_capture_first(pattern: &str, text: &str) -> (r: Option<String>)
    ensures
        match r {
            Option::Some(s) => regex_first_capture(pattern@, text@) == Option::Some(s@),
            Option::None => regex_first_capture(pattern@, text@) is None,
        },
{
    let re = match regex::Regex::new(pattern) {
        Ok(re) => re,
        Err(_) => return None,
    };
    let caps = match re.captures(text) {
        Some(caps) => caps,
        None => return None,
    };
    match caps.get(1) {
        Some(m) => Some(m.as_str().to_owned()),
        None => None,
    }
}

/// The pattern recognizing a trailing `FORMAT <name>` clause, case
/// insensitively, with the format name as the first capture group.
pub open spec fn format_pattern() -> Seq<char> {
    r".*(?i)FORMAT\s*([[:alpha:]]*)\s*;?$"@
}

pub struct ClickHouseFederated {}

impl ClickHouseFederated {
    /// The output format a query names in its trailing `FORMAT` clause, if
    /// any.
    pub fn get_format(query: &str) -> (r: Option<String>)
        ensures
            match r {
                Option::Some(s) => regex_first_capture(format_pattern(), query@)
                    == Option::Some(s@),
                Option::None => regex_first_capture(format_pattern(), query@) is None,
            },
    {
        regex_capture_first(r".*(?i)FORMAT\s*([[:alpha:]]*)\s*;?$", query)
    }
}

} // verus!
