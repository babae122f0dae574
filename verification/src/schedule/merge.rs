use crate::schedule::model::{ParsedSchedule, ParsedScheduleView, TimeEntry, TimeEntryView};
use crate::schedule::parse::{route_numbers, routes_view, RouteEntry, RouteEntryView};
use crate::utils::text::{
    find_char, find_text, first_index_of, lemma_first_index_of, lemma_position_in,
    lemma_position_is, pad2, padded2, position_in, same_text, texts, to_chars,
};
use vstd::prelude::*;

verus! {

/// One departure of a merged timetable. `note_id` is the position of its
/// note among the notes of the route.
pub struct Departure {
    pub direction: String,
    pub hour: String,
    pub minute: String,
    pub note_id: Option<usize>,
}

/// The departures of a route on one kind of day, in the order of the
/// timetable's directions and, within a direction, of the page.
pub struct DaySchedule {
    pub day_type: String,
    pub departures: Vec<Departure>,
}

/// All timetables of one route, with the notes of their departures in the
/// order in which they are first met.
pub struct MergedRoute {
    pub route_id: String,
    pub route_name: String,
    pub description: String,
    pub directions: Vec<String>,
    pub days: Vec<DaySchedule>,
    pub notes: Vec<String>,
}

pub struct DepartureModel {
    pub direction: Seq<char>,
    pub hour: Seq<char>,
    pub minute: Seq<char>,
    pub note_id: Option<usize>,
}

pub struct DayView {
    pub day_type: Seq<char>,
    pub departures: Seq<DepartureModel>,
}

pub struct MergedRouteView {
    pub route_id: Seq<char>,
    pub route_name: Seq<char>,
    pub description: Seq<char>,
    pub directions: Seq<Seq<char>>,
    pub days: Seq<DayView>,
    pub notes: Seq<Seq<char>>,
}

impl View for Departure {
    type V = DepartureModel;

    open spec fn view(&self) -> DepartureModel {
        DepartureModel {
            direction: self.direction@,
            hour: self.hour@,
            minute: self.minute@,
            note_id: self.note_id,
        }
    }
}

/// Departures as the contracts see them.
pub open spec fn departures_view(list: Seq<Departure>) -> Seq<DepartureModel> {
    Seq::new(list.len(), |i: int| list[i]@)
}

impl View for DaySchedule {
    type V = DayView;

    open spec fn view(&self) -> DayView {
        DayView { day_type: self.day_type@, departures: departures_view(self.departures@) }
    }
}

/// Days as the contracts see them.
pub open spec fn days_view(list: Seq<DaySchedule>) -> Seq<DayView> {
    Seq::new(list.len(), |i: int| list[i]@)
}

impl View for MergedRoute {
    type V = MergedRouteView;

    open spec fn view(&self) -> MergedRouteView {
        MergedRouteView {
            route_id: self.route_id@,
            route_name: self.route_name@,
            description: self.description@,
            directions: texts(self.directions@),
            days: days_view(self.days@),
            notes: texts(self.notes@),
        }
    }
}

/// Merged routes as the contracts see them.
pub open spec fn merged_view(list: Seq<MergedRoute>) -> Seq<MergedRouteView> {
    Seq::new(list.len(), |i: int| list[i]@)
}

/// Timetables as the contracts see them.
pub open spec fn schedules_view(list: Seq<ParsedSchedule>) -> Seq<ParsedScheduleView> {
    Seq::new(list.len(), |i: int| list[i]@)
}

/// A time with exactly one colon has an hour before it and a minute after
/// it.
pub open spec fn has_hour_and_minute(time: Seq<char>) -> bool {
    let c = first_index_of(time, ':');
    c < time.len() && first_index_of(time.skip(c + 1), ':') == time.len() - c - 1
}

/// The hour of a time, padded to two characters.
pub open spec fn hour_of(time: Seq<char>) -> Seq<char> {
    padded2(time.take(first_index_of(time, ':')))
}

/// The minute of a time, padded to two characters.
pub open spec fn minute_of(time: Seq<char>) -> Seq<char> {
    padded2(time.skip(first_index_of(time, ':') + 1))
}

/// The notes of a route and the departures of a timetable while the
/// timetable is read.
pub struct Gather {
    pub notes: Seq<Seq<char>>,
    pub departures: Seq<DepartureModel>,
}

/// The notes after a departure with this note has been read: a text that
/// is new to the route joins its notes.
pub open spec fn with_note(notes: Seq<Seq<char>>, note: Option<Seq<char>>) -> Seq<Seq<char>> {
    match note {
        Some(text) => if position_in(notes, text) < notes.len() {
            notes
        } else {
            notes.push(text)
        },
        None => notes,
    }
}

/// The position at which a route keeps a note.
pub open spec fn note_id_of(notes: Seq<Seq<char>>, note: Option<Seq<char>>) -> Option<usize> {
    match note {
        Some(text) => Some(position_in(notes, text) as usize),
        None => None,
    }
}

/// What is gathered after a departure of a direction has been read. Its
/// note is kept even where its time has no hour and minute and the
/// departure itself is left out.
pub open spec fn take_entry(g: Gather, direction: Seq<char>, e: TimeEntryView) -> Gather {
    Gather {
        notes: with_note(g.notes, e.note),
        departures: if has_hour_and_minute(e.time) {
            g.departures.push(
                DepartureModel {
                    direction,
                    hour: hour_of(e.time),
                    minute: minute_of(e.time),
                    note_id: note_id_of(g.notes, e.note),
                },
            )
        } else {
            g.departures
        },
    }
}

/// What is gathered after the first `upto` departures of a direction.
pub open spec fn take_entries(
    g: Gather,
    direction: Seq<char>,
    entries: Seq<TimeEntryView>,
    upto: int,
) -> Gather
    decreases upto,
{
    if upto <= 0 {
        g
    } else {
        take_entry(take_entries(g, direction, entries, upto - 1), direction, entries[upto - 1])
    }
}

/// What is gathered after the first `upto` directions of a timetable.
pub open spec fn take_directions(g: Gather, s: ParsedScheduleView, upto: int) -> Gather
    decreases upto,
{
    if upto <= 0 {
        g
    } else {
        take_entries(
            take_directions(g, s, upto - 1),
            s.directions[upto - 1],
            s.times_by_direction[upto - 1],
            s.times_by_direction[upto - 1].len() as int,
        )
    }
}

/// Number of directions of a timetable that have a list of departures.
pub open spec fn direction_count(s: ParsedScheduleView) -> int {
    if s.directions.len() <= s.times_by_direction.len() {
        s.directions.len() as int
    } else {
        s.times_by_direction.len() as int
    }
}

/// The identifiers of merged routes, in order.
pub open spec fn route_ids(routes: Seq<MergedRouteView>) -> Seq<Seq<char>> {
    Seq::new(routes.len(), |i: int| routes[i].route_id)
}

/// The kinds of day of a route, in order.
pub open spec fn day_types(days: Seq<DayView>) -> Seq<Seq<char>> {
    Seq::new(days.len(), |i: int| days[i].day_type)
}

/// A route before its first timetable: named after its number, described
/// by its termini, with the directions that the index page knows, or those
/// of the timetable where the index page does not know the route.
pub open spec fn new_route(s: ParsedScheduleView, known: Seq<RouteEntryView>) -> MergedRouteView {
    let at = position_in(route_numbers(known), s.route_number);
    MergedRouteView {
        route_id: s.route_number,
        route_name: s.route_number + "번"@,
        description: if at < known.len() {
            known[at].origin + " ↔ "@ + known[at].destination
        } else {
            " ↔ "@
        },
        directions: if at < known.len() {
            known[at].directions
        } else {
            s.directions
        },
        days: Seq::empty(),
        notes: Seq::empty(),
    }
}

/// A route after one more of its timetables has been merged in. The
/// timetable takes the place of an earlier one for the same kind of day;
/// the notes of the route go on.
pub open spec fn with_timetable(route: MergedRouteView, s: ParsedScheduleView) -> MergedRouteView {
    let g = take_directions(
        Gather { notes: route.notes, departures: Seq::empty() },
        s,
        direction_count(s),
    );
    let day = DayView { day_type: s.day_type, departures: g.departures };
    let at = position_in(day_types(route.days), s.day_type);
    MergedRouteView {
        days: if at < route.days.len() {
            route.days.update(at, day)
        } else {
            route.days.push(day)
        },
        notes: g.notes,
        ..route
    }
}

/// The merged routes after one more timetable.
pub open spec fn with_schedule(
    routes: Seq<MergedRouteView>,
    s: ParsedScheduleView,
    known: Seq<RouteEntryView>,
) -> Seq<MergedRouteView> {
    let at = position_in(route_ids(routes), s.route_number);
    if at < routes.len() {
        routes.update(at, with_timetable(routes[at], s))
    } else {
        routes.push(with_timetable(new_route(s, known), s))
    }
}

/// The merged routes after the first `upto` timetables.
pub open spec fn merged_of(
    schedules: Seq<ParsedScheduleView>,
    known: Seq<RouteEntryView>,
    upto: int,
) -> Seq<MergedRouteView>
    decreases upto,
{
    if upto <= 0 {
        Seq::empty()
    } else {
        with_schedule(merged_of(schedules, known, upto - 1), schedules[upto - 1], known)
    }
}

/// Hour and minute of a time, each padded to two characters; `None` unless
/// the time holds exactly one colon.
pub fn split_time(time: &str) -> (r: Option<(String, String)>)
    ensures
        r is Some <==> has_hour_and_minute(time@),
        r matches Some(hm) ==> hm.0@ == hour_of(time@) && hm.1@ == minute_of(time@),
{
    let chars = to_chars(time);
    let c = find_char(&chars, ':');
    proof {
        lemma_first_index_of(time@, ':');
    }
    if c >= chars.len() {
        return None;
    }
    let head = time.substring_char(0, c);
    let tail = time.substring_char(c + 1, chars.len());
    assert(head@ =~= time@.take(c as int));
    assert(tail@ =~= time@.skip(c + 1));
    let tail_chars = to_chars(tail);
    let c2 = find_char(&tail_chars, ':');
    if c2 < tail_chars.len() {
        return None;
    }
    proof {
        lemma_first_index_of(tail_chars@, ':');
    }
    Some((pad2(head), pad2(tail)))
}

/// A copy of a list of strings.
fn copy_list(list: &Vec<String>) -> (r: Vec<String>)
    ensures
        texts(r@) == texts(list@),
{
    let mut r: Vec<String> = Vec::new();
    let mut i: usize = 0;
    while i < list.len()
        invariant
            0 <= i <= list@.len(),
            r@.len() == i,
            forall|j: int| 0 <= j < i ==> r@[j]@ == list@[j]@,
        decreases list.len() - i,
    {
        r.push(list[i].clone());
        i += 1;
    }
    assert(texts(r@) =~= texts(list@));
    r
}

/// Reads one departure of a direction of a timetable.
fn gather_entry(
    notes: &mut Vec<String>,
    departures: &mut Vec<Departure>,
    direction: &str,
    e: &TimeEntry,
)
    ensures
        (Gather { notes: texts(final(notes)@), departures: departures_view(final(departures)@) })
            == take_entry(
            Gather { notes: texts(old(notes)@), departures: departures_view(old(departures)@) },
            direction@,
            e@,
        ),
{
    let ghost notes_before = texts(notes@);
    let ghost departures_before = departures_view(departures@);
    let note_id = match &e.note {
        Some(text) => {
            let at = find_text(notes, text.as_str());
            proof {
                lemma_position_in(notes_before, text@);
            }
            if at >= notes.len() {
                notes.push(text.clone());
                assert(texts(notes@) =~= notes_before.push(text@));
            }
            Some(at)
        },
        None => None,
    };
    match split_time(e.time.as_str()) {
        Some(hm) => {
            let d = Departure {
                direction: String::from_str(direction),
                hour: hm.0,
                minute: hm.1,
                note_id,
            };
            departures.push(d);
            assert(departures_view(departures@) =~= departures_before.push(d@));
        },
        None => {},
    }
}

/// Reads the departures of a timetable.
fn gather_schedule(notes: &mut Vec<String>, s: &ParsedSchedule) -> (departures: Vec<Departure>)
    ensures
        (Gather { notes: texts(final(notes)@), departures: departures_view(departures@) })
            == take_directions(
            Gather { notes: texts(old(notes)@), departures: Seq::empty() },
            s@,
            direction_count(s@),
        ),
{
    let ghost start = Gather { notes: texts(notes@), departures: Seq::<DepartureModel>::empty() };
    let mut departures: Vec<Departure> = Vec::new();
    assert(departures_view(departures@) =~= Seq::empty());
    let count = if s.directions.len() <= s.times_by_direction.len() {
        s.directions.len()
    } else {
        s.times_by_direction.len()
    };
    let mut d: usize = 0;
    while d < count
        invariant
            0 <= d <= count,
            count == direction_count(s@),
            count <= s.directions@.len(),
            count <= s.times_by_direction@.len(),
            (Gather { notes: texts(notes@), departures: departures_view(departures@) })
                == take_directions(start, s@, d as int),
        decreases count - d,
    {
        let entries = &s.times_by_direction[d];
        let direction = s.directions[d].as_str();
        let ghost before = Gather {
            notes: texts(notes@),
            departures: departures_view(departures@),
        };
        let ghost entries_view = s@.times_by_direction[d as int];
        assert(entries_view.len() == entries@.len());
        let mut k: usize = 0;
        while k < entries.len()
            invariant
                0 <= k <= entries@.len(),
                entries_view.len() == entries@.len(),
                forall|j: int| 0 <= j < entries@.len() ==> entries_view[j] == entries@[j]@,
                (Gather { notes: texts(notes@), departures: departures_view(departures@) })
                    == take_entries(before, direction@, entries_view, k as int),
            decreases entries.len() - k,
        {
            gather_entry(notes, &mut departures, direction, &entries[k]);
            k += 1;
        }
        assert(s@.directions[d as int] == direction@);
        d += 1;
    }
    departures
}

/// A route before its first timetable.
fn new_merged_route(s: &ParsedSchedule, known: &Vec<RouteEntry>) -> (r: MergedRoute)
    ensures
        r@ == new_route(s@, routes_view(known@)),
{
    let at = crate::schedule::parse::find_route(known, s.route_number.as_str());
    let mut route_name = s.route_number.clone();
    route_name.append("번");
    let mut description = String::new();
    let directions = if at < known.len() {
        description.append(known[at].meta.origin.as_str());
        description.append(" ↔ ");
        description.append(known[at].meta.destination.as_str());
        assert(routes_view(known@)[at as int] == known@[at as int]@);
        copy_list(&known[at].meta.directions)
    } else {
        description.append(" ↔ ");
        copy_list(&s.directions)
    };
    let r = MergedRoute {
        route_id: s.route_number.clone(),
        route_name,
        description,
        directions,
        days: Vec::new(),
        notes: Vec::new(),
    };
    assert(r@.days =~= Seq::empty());
    assert(r@.notes =~= Seq::empty());
    assert(r@.description =~= new_route(s@, routes_view(known@)).description);
    r
}

/// Position of the day of kind `day_type` among the days of a route, or
/// their number where the route has no such day.
fn find_day(days: &Vec<DaySchedule>, day_type: &str) -> (at: usize)
    ensures
        at == position_in(day_types(days_view(days@)), day_type@),
        at <= days@.len(),
{
    let ghost kinds = day_types(days_view(days@));
    let mut i: usize = 0;
    while i < days.len()
        invariant
            0 <= i <= days@.len(),
            kinds == day_types(days_view(days@)),
            forall|j: int| 0 <= j < i ==> kinds[j] != day_type@,
        decreases days.len() - i,
    {
        assert(kinds[i as int] == days@[i as int].day_type@);
        if same_text(days[i].day_type.as_str(), day_type) {
            proof {
                lemma_position_is(kinds, day_type@, i as int);
            }
            return i;
        }
        i += 1;
    }
    proof {
        lemma_position_is(kinds, day_type@, i as int);
    }
    i
}

/// Merges one more timetable into its route.
fn merge_timetable(route: MergedRoute, s: &ParsedSchedule) -> (r: MergedRoute)
    ensures
        r@ == with_timetable(route@, s@),
{
    let ghost before = route@;
    let MergedRoute { route_id, route_name, description, directions, mut days, mut notes } = route;
    let departures = gather_schedule(&mut notes, s);
    let day = DaySchedule { day_type: s.day_type.clone(), departures };
    let ghost days_before = days@;
    let at = find_day(&days, s.day_type.as_str());
    if at < days.len() {
        days[at] = day;
        assert(days_view(days@) =~= days_view(days_before).update(at as int, day@));
    } else {
        days.push(day);
        assert(days_view(days@) =~= days_view(days_before).push(day@));
    }
    MergedRoute { route_id, route_name, description, directions, days, notes }
}

/// Position of the route `route_id` among merged routes, or their number
/// where it is not among them.
fn find_merged(routes: &Vec<MergedRoute>, route_id: &str) -> (at: usize)
    ensures
        at == position_in(route_ids(merged_view(routes@)), route_id@),
        at <= routes@.len(),
{
    let ghost ids = route_ids(merged_view(routes@));
    let mut i: usize = 0;
    while i < routes.len()
        invariant
            0 <= i <= routes@.len(),
            ids == route_ids(merged_view(routes@)),
            forall|j: int| 0 <= j < i ==> ids[j] != route_id@,
        decreases routes.len() - i,
    {
        assert(ids[i as int] == routes@[i as int].route_id@);
        if same_text(routes[i].route_id.as_str(), route_id) {
            proof {
                lemma_position_is(ids, route_id@, i as int);
            }
            return i;
        }
        i += 1;
    }
    proof {
        lemma_position_is(ids, route_id@, i as int);
    }
    i
}

/// Merges the timetables of every route into one record per route, in the
/// order in which the routes are first met. `known` holds what the index
/// page says of the routes.
pub fn merge_schedules(schedules: &Vec<ParsedSchedule>, known: &Vec<RouteEntry>) -> (merged: Vec<
    MergedRoute,
>)
    ensures
        merged_view(merged@) == merged_of(
            schedules_view(schedules@),
            routes_view(known@),
            schedules@.len() as int,
        ),
{
    let mut merged: Vec<MergedRoute> = Vec::new();
    assert(merged_view(merged@) =~= Seq::empty());
    let mut i: usize = 0;
    while i < schedules.len()
        invariant
            0 <= i <= schedules@.len(),
            merged_view(merged@) == merged_of(
                schedules_view(schedules@),
                routes_view(known@),
                i as int,
            ),
        decreases schedules.len() - i,
    {
        let s = &schedules[i];
        let ghost before = merged_view(merged@);
        assert(schedules_view(schedules@)[i as int] == s@);
        let at = find_merged(&merged, s.route_number.as_str());
        if at < merged.len() {
            let ghost old_merged = merged@;
            let route = merged.remove(at);
            let route = merge_timetable(route, s);
            merged.insert(at, route);
            assert(merged_view(merged@) =~= before.update(at as int, with_timetable(before[at as int], s@)))
                by {
                assert(before[at as int] == old_merged[at as int]@);
                assert forall|j: int| 0 <= j < merged@.len() && j != at implies merged@[j]
                    == old_merged[j] by {}
            }
        } else {
            let route = merge_timetable(new_merged_route(s, known), s);
            merged.push(route);
            assert(merged_view(merged@) =~= before.push(
                with_timetable(new_route(s@, routes_view(known@)), s@),
            ));
        }
        i += 1;
    }
    merged
}

} // verus!
