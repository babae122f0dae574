pub mod fetch;
pub mod html;
pub mod merge;
pub mod model;
pub mod parse;
pub mod pattern;

use crate::schedule::model::ParsedSchedule;
use crate::utils::text::to_chars;
use std::path::PathBuf;
use vstd::prelude::*;

verus! {

/// What the schedule command is asked to do.
pub struct ScheduleArgs {
    /// The one route number to crawl; all routes where there is none.
    pub route: Option<String>,
    /// Directory under which the timetables are stored.
    pub output_dir: PathBuf,
}

/// Pause before each timetable is fetched, in milliseconds.
pub const POLITENESS_DELAY_MS: u64 = 300;

/// Whether a character is a letter or a digit, as the standard library
/// classes it.
pub uninterp spec fn is_alphanumeric(c: char) -> bool;

/// `char::is_alphanumeric` of the standard library, which depends on the
/// character alone.
#[verifier::external_body]
fn char_is_alphanumeric(c: char) -> (r: bool)
    ensures
        r == is_alphanumeric(c),
{
    c.is_alphanumeric()
}

/// A character that a file name keeps: a letter, a digit or a hyphen.
pub open spec fn is_kept(c: char) -> bool {
    is_alphanumeric(c) || c == '-'
}

/// A route number as a file name writes it: every character that is not
/// kept becomes an underscore.
pub open spec fn safe_name_of(route_number: Seq<char>) -> Seq<char> {
    Seq::new(
        route_number.len(),
        |i: int|
            if is_kept(route_number[i]) {
                route_number[i]
            } else {
                '_'
            },
    )
}

/// The name of the file that holds the timetables of a route.
pub fn schedule_file_name(route_number: &str) -> (name: String)
    ensures
        name@ == safe_name_of(route_number@) + ".json"@,
{
    let chars = to_chars(route_number);
    let mut name = String::new();
    let mut i: usize = 0;
    proof {
        reveal_strlit("_");
    }
    while i < chars.len()
        invariant
            0 <= i <= chars@.len(),
            chars@ == route_number@,
            "_"@ == seq!['_'],
            name@ == safe_name_of(route_number@).take(i as int),
        decreases chars.len() - i,
    {
        let c = chars[i];
        if char_is_alphanumeric(c) || c == '-' {
            name.append(route_number.substring_char(i, i + 1));
        } else {
            name.append("_");
        }
        assert(name@ =~= safe_name_of(route_number@).take(i + 1));
        i += 1;
    }
    assert(safe_name_of(route_number@).take(chars@.len() as int) =~= safe_name_of(route_number@));
    name.append(".json");
    name
}

/// Whether a timetable holds a departure at all.
pub fn has_times(s: &ParsedSchedule) -> (r: bool)
    ensures
        r == exists|d: int|
            0 <= d < s.times_by_direction@.len() && (#[trigger] s.times_by_direction@[d])@.len()
                > 0,
{
    let mut d: usize = 0;
    while d < s.times_by_direction.len()
        invariant
            0 <= d <= s.times_by_direction@.len(),
            forall|k: int| 0 <= k < d ==> (#[trigger] s.times_by_direction@[k])@.len() == 0,
        decreases s.times_by_direction.len() - d,
    {
        if s.times_by_direction[d].len() > 0 {
            return true;
        }
        d += 1;
    }
    false
}

} // verus!
