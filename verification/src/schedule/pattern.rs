use vstd::prelude::*;

verus! {

/// The call that opens the timetable of a route; its first group is the
/// route's identifier.
pub const DETAIL_CALL_PATTERN: &'static str = r"goDetail\('([^']+)'\)";

/// A header that names an hour: digits and the word for hour.
pub const HOUR_HEADER_PATTERN: &'static str = r"^\d+시$";

/// A departure at the start of a cell: one or two digits, a colon, two
/// digits.
pub const TIME_PATTERN: &'static str = r"^(\d{1,2}:\d{2})";

/// What the first group of a pattern holds in the leftmost match of the
/// pattern in a text; `None` where the pattern does not match, the group
/// takes no part in the match, or the pattern is no regular expression.
pub uninterp spec fn first_group(pattern: Seq<char>, text: Seq<char>) -> Option<Seq<char>>;

/// Whether a pattern matches somewhere in a text; `false` where the pattern
/// is no regular expression.
pub uninterp spec fn pattern_matches(pattern: Seq<char>, text: Seq<char>) -> bool;

/// `Regex::captures` of the crate regex, on the expression that
/// `Regex::new` builds from the pattern: the text of group 1 of the
/// leftmost match. The result depends on the pattern and the text alone.
#[verifier::external_body]
pub(crate) fn capture_first_group(pattern: &str, text: &str) -> (r: Option<String>)
    ensures
        r is Some <==> first_group(pattern@, text@) is Some,
        r matches Some(s) ==> first_group(pattern@, text@) == Some(s@),
{
    match regex::Regex::new(pattern) {
        Ok(re) => re.captures(text).and_then(|c| c.get(1)).map(|m| m.as_str().to_string()),
        Err(_) => None,
    }
}

/// `Regex::is_match` of the crate regex, on the expression that
/// `Regex::new` builds from the pattern. The result depends on the pattern
/// and the text alone.
#[verifier::external_body]
pub(crate) fn is_match(pattern: &str, text: &str) -> (r: bool)
    ensures
        r == pattern_matches(pattern@, text@),
{
    match regex::Regex::new(pattern) {
        Ok(re) => re.is_match(text),
        Err(_) => false,
    }
}

} // verus!
