use crate::utils::text::texts;
use vstd::prelude::*;

verus! {

/// Where a route starts and ends, and every terminus that it serves.
#[derive(Debug, Clone)]
pub struct RouteMeta {
    pub origin: String,
    pub destination: String,
    pub directions: Vec<String>,
}

/// One departure of a timetable.
#[derive(Debug)]
pub struct TimeEntry {
    pub time: String,
    pub note: Option<String>,
}

/// A departure as the contracts see it.
pub struct TimeEntryView {
    pub time: Seq<char>,
    pub note: Option<Seq<char>>,
}

impl View for TimeEntry {
    type V = TimeEntryView;

    open spec fn view(&self) -> TimeEntryView {
        TimeEntryView {
            time: self.time@,
            note: match self.note {
                Some(n) => Some(n@),
                None => None,
            },
        }
    }
}

/// The timetable of one route for one kind of day. `times_by_direction`
/// holds the departures of `directions[i]` at position `i`; a direction
/// that is named twice keeps its departures under the first of the two.
#[derive(Debug)]
pub struct ParsedSchedule {
    pub route_number: String,
    pub day_type: String,
    pub directions: Vec<String>,
    pub times_by_direction: Vec<Vec<TimeEntry>>,
}

/// The departures of every direction as the contracts see them.
pub open spec fn times_view(times: Seq<Vec<TimeEntry>>) -> Seq<Seq<TimeEntryView>> {
    Seq::new(times.len(), |i: int| Seq::new(times[i]@.len(), |j: int| times[i]@[j]@))
}

/// A timetable as the contracts see it.
pub struct ParsedScheduleView {
    pub route_number: Seq<char>,
    pub day_type: Seq<char>,
    pub directions: Seq<Seq<char>>,
    pub times_by_direction: Seq<Seq<TimeEntryView>>,
}

impl View for ParsedSchedule {
    type V = ParsedScheduleView;

    open spec fn view(&self) -> ParsedScheduleView {
        ParsedScheduleView {
            route_number: self.route_number@,
            day_type: self.day_type@,
            directions: texts(self.directions@),
            times_by_direction: times_view(self.times_by_direction@),
        }
    }
}

} // verus!
