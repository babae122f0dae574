use crate::schedule::html::{
    are_tables_of, page_rows, page_tables, table_elements, PageRow, PageTable,
};
use crate::schedule::model::{
    times_view, ParsedSchedule, ParsedScheduleView, RouteMeta, TimeEntry, TimeEntryView,
};
use crate::schedule::pattern::{
    capture_first_group, first_group, is_match, pattern_matches, DETAIL_CALL_PATTERN,
    HOUR_HEADER_PATTERN, TIME_PATTERN,
};
use crate::utils::text::{
    before_first, contains, find_char, find_text, first_index_of, has_substring, head_before,
    insert_sorted, is_ascending, is_either, is_prefix, lemma_first_index_of, lemma_position_in,
    lemma_position_is, lemma_sorted_insert, position_in, same_text, sorted_insert, starts_with,
    strip_either, strip_end, stripped, stripped_end, texts, to_chars, trim, trimmed,
};
use vstd::prelude::*;

verus! {

/// The lower-case form of a text, as the standard library maps it.
pub uninterp spec fn lowercase_of(s: Seq<char>) -> Seq<char>;

/// `str::to_lowercase` of the standard library: the result is the
/// lower-case form of the argument, which depends on nothing else.
#[verifier::external_body]
fn to_lowercase(s: &str) -> (r: String)
    ensures
        r@ == lowercase_of(s@),
{
    s.to_lowercase()
}

/// A label names working days.
pub open spec fn names_weekday(label: Seq<char>) -> bool {
    has_substring(label, "평일"@) || has_substring(label, "주중"@)
}

/// A label names a weekend, a single day of it, a holiday or a vacation.
pub open spec fn names_weekend(label: Seq<char>) -> bool {
    has_substring(label, "주말"@) || has_substring(label, "휴일"@) || has_substring(
        label,
        "토"@,
    ) || has_substring(label, "일"@) || has_substring(label, "방학"@) || has_substring(
        label,
        "공휴"@,
    )
}

/// The kind of day that a lower-case label stands for. Working days are
/// looked for first.
pub open spec fn day_type_of(label: Seq<char>) -> Seq<char> {
    if names_weekday(label) {
        "weekday"@
    } else if names_weekend(label) {
        "weekend"@
    } else {
        "general"@
    }
}

/// The kind of day of a label that is in lower case already.
pub fn day_type_of_lowered(label: &str) -> (r: String)
    ensures
        r@ == day_type_of(label@),
{
    if contains(label, "평일") || contains(label, "주중") {
        "weekday".to_string()
    } else if contains(label, "주말") || contains(label, "휴일") || contains(label, "토")
        || contains(label, "일") || contains(label, "방학") || contains(label, "공휴") {
        "weekend".to_string()
    } else {
        "general".to_string()
    }
}

/// The kind of day of a label as a timetable page writes it: `weekday`,
/// `weekend` or `general`.
pub fn normalize_day_type(raw: &str) -> (r: String)
    ensures
        r@ == day_type_of(lowercase_of(raw@)),
{
    let lower = to_lowercase(raw);
    day_type_of_lowered(lower.as_str())
}

/// The two parts of a route's identifier.
pub struct RouteLabel {
    pub route_number: String,
    pub raw_day_type: String,
}

/// The route number in an identifier such as `34-1(평일)`: what stands
/// before the first opening bracket, trimmed; the whole identifier where it
/// has no bracket.
pub open spec fn route_number_of(route_id: Seq<char>) -> Seq<char> {
    let at = first_index_of(route_id, '(');
    if at < route_id.len() {
        trimmed(route_id.take(at))
    } else {
        route_id
    }
}

/// The label of the kind of day in an identifier: what stands from the
/// first opening bracket on, without the brackets at its two ends;
/// `general` where the identifier has no bracket.
pub open spec fn raw_day_type_of(route_id: Seq<char>) -> Seq<char> {
    let at = first_index_of(route_id, '(');
    if at < route_id.len() {
        stripped(route_id.skip(at), is_either('(', ')'))
    } else {
        "general"@
    }
}

/// Splits the identifier of a route into route number and kind of day.
pub fn split_route_id(route_id: &str) -> (r: RouteLabel)
    ensures
        r.route_number@ == route_number_of(route_id@),
        r.raw_day_type@ == raw_day_type_of(route_id@),
{
    let chars = to_chars(route_id);
    let at = find_char(&chars, '(');
    proof {
        lemma_first_index_of(route_id@, '(');
    }
    if at < chars.len() {
        let head = route_id.substring_char(0, at);
        let tail = route_id.substring_char(at, chars.len());
        assert(head@ =~= route_id@.take(at as int));
        assert(tail@ =~= route_id@.skip(at as int));
        RouteLabel { route_number: trim(head), raw_day_type: strip_either(tail, '(', ')') }
    } else {
        RouteLabel { route_number: String::from_str(route_id), raw_day_type: "general".to_string() }
    }
}

/// A table has a header cell that names a departure.
pub open spec fn names_departure(table: PageTable) -> bool {
    exists|i: int|
        0 <= i < table.header_texts@.len() && has_substring(
            #[trigger] table.header_texts@[i]@,
            "발"@,
        )
}

/// `i` is the table that holds the timetable: the first table with a header
/// cell that names a departure, or the first table of all where none has
/// one.
pub open spec fn is_schedule_table(tables: Seq<PageTable>, i: int) -> bool {
    &&& 0 <= i < tables.len()
    &&& if exists|j: int| 0 <= j < tables.len() && names_departure(#[trigger] tables[j]) {
        names_departure(tables[i]) && forall|j: int|
            0 <= j < i ==> !names_departure(#[trigger] tables[j])
    } else {
        i == 0
    }
}

/// Whether a table has a header cell that names a departure.
fn table_names_departure(table: &PageTable) -> (r: bool)
    ensures
        r == names_departure(*table),
{
    let mut i: usize = 0;
    while i < table.header_texts.len()
        invariant
            0 <= i <= table.header_texts@.len(),
            forall|j: int|
                0 <= j < i ==> !has_substring(#[trigger] table.header_texts@[j]@, "발"@),
        decreases table.header_texts.len() - i,
    {
        if contains(table.header_texts[i].as_str(), "발") {
            return true;
        }
        i += 1;
    }
    false
}

/// Picks the table that holds the timetable; `None` for a page without
/// tables.
pub fn choose_table(tables: &Vec<PageTable>) -> (r: Option<usize>)
    ensures
        r is None <==> tables@.len() == 0,
        r matches Some(i) ==> is_schedule_table(tables@, i as int),
{
    let mut i: usize = 0;
    while i < tables.len()
        invariant
            0 <= i <= tables@.len(),
            forall|j: int| 0 <= j < i ==> !names_departure(#[trigger] tables@[j]),
        decreases tables.len() - i,
    {
        if table_names_departure(&tables[i]) {
            return Some(i);
        }
        i += 1;
    }
    if tables.len() > 0 {
        Some(0)
    } else {
        None
    }
}

/// What the header cells of a timetable say: the directions in the order
/// in which they are first named, for each column the position of its
/// direction among them, and the column of the notes.
pub struct Headers {
    pub directions: Vec<String>,
    pub columns: Vec<Option<usize>>,
    pub note_col: Option<usize>,
}

/// The headers of a timetable as the contracts see them.
pub struct HeaderScan {
    pub directions: Seq<Seq<char>>,
    pub columns: Seq<Option<usize>>,
    pub note_col: Option<usize>,
}

impl View for Headers {
    type V = HeaderScan;

    open spec fn view(&self) -> HeaderScan {
        HeaderScan {
            directions: texts(self.directions@),
            columns: self.columns@,
            note_col: self.note_col,
        }
    }
}

impl HeaderScan {
    /// Nothing read yet.
    pub open spec fn empty() -> HeaderScan {
        HeaderScan { directions: Seq::empty(), columns: Seq::empty(), note_col: None }
    }

    /// Every column points at a direction of the list.
    pub open spec fn wf(self) -> bool {
        forall|c: int|
            0 <= c < self.columns.len() && (#[trigger] self.columns[c]) is Some
                ==> self.columns[c]->0 < self.directions.len()
    }
}

/// A cleaned header text names a direction unless it is empty, one of the
/// fixed headings of the page, or names an hour.
pub open spec fn is_direction_name(clean: Seq<char>) -> bool {
    &&& clean.len() > 0
    &&& clean != "운행순번"@
    &&& clean != "시"@
    &&& clean != "분"@
    &&& clean != "구분"@
    &&& !pattern_matches(HOUR_HEADER_PATTERN@, clean)
}

/// The columns with column `idx` set to direction `d`; columns between the
/// old end and `idx` point nowhere.
pub open spec fn with_column(columns: Seq<Option<usize>>, idx: int, d: usize) -> Seq<
    Option<usize>,
> {
    if idx < columns.len() {
        columns.update(idx, Some(d))
    } else {
        columns + Seq::new((idx - columns.len()) as nat, |i: int| None::<usize>) + seq![Some(d)]
    }
}

/// The headers after header cell `idx` of a row, with text `raw`, has been
/// read. The heading of the notes marks the notes' column. Any other text
/// loses the word for departure at its end; if it then names a direction,
/// the direction joins the list unless it is there, and the column points
/// at it.
pub open spec fn scan_header(s: HeaderScan, idx: int, raw: Seq<char>) -> HeaderScan {
    let text = trimmed(raw);
    if text == "비고"@ {
        HeaderScan { note_col: Some(idx as usize), ..s }
    } else {
        let clean = stripped_end(text, is_either('발', '발'));
        if is_direction_name(clean) {
            let at = position_in(s.directions, clean);
            HeaderScan {
                directions: if at < s.directions.len() {
                    s.directions
                } else {
                    s.directions.push(clean)
                },
                columns: with_column(s.columns, idx, at as usize),
                note_col: s.note_col,
            }
        } else {
            s
        }
    }
}

/// The headers after the first `upto` header cells of a row have been
/// read.
pub open spec fn scan_row(s: HeaderScan, headers: Seq<Seq<char>>, upto: int) -> HeaderScan
    decreases upto,
{
    if upto <= 0 {
        s
    } else {
        scan_header(scan_row(s, headers, upto - 1), upto - 1, headers[upto - 1])
    }
}

/// The headers after the first `upto` rows of a table have been read.
pub open spec fn scan_rows(s: HeaderScan, rows: Seq<PageRow>, upto: int) -> HeaderScan
    decreases upto,
{
    if upto <= 0 {
        s
    } else {
        scan_row(
            scan_rows(s, rows, upto - 1),
            texts(rows[upto - 1].headers@),
            rows[upto - 1].headers@.len() as int,
        )
    }
}

/// Reading a header cell keeps every column pointing into the list.
pub proof fn lemma_scan_header_keeps_wf(s: HeaderScan, idx: int, raw: Seq<char>)
    requires
        s.wf(),
        0 <= idx,
    ensures
        scan_header(s, idx, raw).wf(),
{
    let t = scan_header(s, idx, raw);
    let clean = stripped_end(trimmed(raw), is_either('발', '발'));
    lemma_position_in(s.directions, clean);
    assert forall|c: int| 0 <= c < t.columns.len() && (#[trigger] t.columns[c]) is Some implies
        t.columns[c]->0 < t.directions.len() by {
        if trimmed(raw) != "비고"@ && is_direction_name(clean) {
            if c < s.columns.len() && c != idx {
                assert(t.columns[c] == s.columns[c]);
            }
        }
    }
}

/// Sets column `idx` to direction `d`.
fn set_column(columns: &mut Vec<Option<usize>>, idx: usize, d: usize)
    ensures
        final(columns)@ == with_column(old(columns)@, idx as int, d),
{
    if idx < columns.len() {
        columns[idx] = Some(d);
    } else {
        let ghost before = columns@;
        while columns.len() < idx
            invariant
                before.len() <= columns@.len() <= idx,
                columns@ == before + Seq::new(
                    (columns@.len() - before.len()) as nat,
                    |i: int| None::<usize>,
                ),
            decreases idx - columns.len(),
        {
            columns.push(None);
            assert(columns@ =~= before + Seq::new(
                (columns@.len() - before.len()) as nat,
                |i: int| None::<usize>,
            ));
        }
        columns.push(Some(d));
    }
}

/// Whether a cleaned header text names a direction.
fn names_direction(clean: &str) -> (r: bool)
    ensures
        r == is_direction_name(clean@),
{
    !clean.is_empty() && !same_text(clean, "운행순번") && !same_text(clean, "시") && !same_text(
        clean,
        "분",
    ) && !same_text(clean, "구분") && !is_match(HOUR_HEADER_PATTERN, clean)
}

/// Reads the header cells of the rows of a table.
pub fn scan_headers(rows: &Vec<PageRow>) -> (h: Headers)
    ensures
        h@ == scan_rows(HeaderScan::empty(), rows@, rows@.len() as int),
        h@.wf(),
{
    let mut h = Headers { directions: Vec::new(), columns: Vec::new(), note_col: None };
    assert(h@.directions =~= HeaderScan::empty().directions);
    let mut r: usize = 0;
    while r < rows.len()
        invariant
            0 <= r <= rows@.len(),
            h@ == scan_rows(HeaderScan::empty(), rows@, r as int),
            h@.wf(),
        decreases rows.len() - r,
    {
        let row = &rows[r];
        let ghost start = h@;
        let mut idx: usize = 0;
        while idx < row.headers.len()
            invariant
                0 <= idx <= row.headers@.len(),
                h@ == scan_row(start, texts(row.headers@), idx as int),
                h@.wf(),
            decreases row.headers.len() - idx,
        {
            let ghost prev = h@;
            proof {
                lemma_scan_header_keeps_wf(prev, idx as int, row.headers@[idx as int]@);
            }
            let text = trim(row.headers[idx].as_str());
            if same_text(text.as_str(), "비고") {
                h.note_col = Some(idx);
            } else {
                let clean = strip_end(text.as_str(), '발');
                if names_direction(clean.as_str()) {
                    let at = find_text(&h.directions, clean.as_str());
                    if at >= h.directions.len() {
                        h.directions.push(clean);
                        assert(texts(h.directions@) =~= prev.directions.push(
                            stripped_end(trimmed(row.headers@[idx as int]@), is_either('발', '발')),
                        ));
                    }
                    set_column(&mut h.columns, idx, at);
                }
            }
            assert(h@ == scan_header(prev, idx as int, texts(row.headers@)[idx as int]));
            idx += 1;
        }
        r += 1;
    }
    h
}

/// The columns that stand in where the headers name no direction: the
/// first column points nowhere, and column `i + 1` points at direction `i`
/// of the list, or at the first direction of the same name.
pub open spec fn fallback_columns(directions: Seq<Seq<char>>) -> Seq<Option<usize>> {
    seq![None::<usize>] + Seq::new(
        directions.len(),
        |i: int| Some(position_in(directions, directions[i]) as usize),
    )
}

/// The headers with the route's own directions put in where the page names
/// none. A route without known directions leaves the headers as they are.
pub open spec fn with_fallback(s: HeaderScan, known: Option<Seq<Seq<char>>>) -> HeaderScan {
    if s.directions.len() == 0 && known is Some {
        HeaderScan {
            directions: known->0,
            columns: if (known->0).len() > 0 {
                fallback_columns(known->0)
            } else {
                s.columns
            },
            note_col: s.note_col,
        }
    } else {
        s
    }
}

/// The directions that are known of a route.
pub open spec fn known_directions(meta: Option<&RouteMeta>) -> Option<Seq<Seq<char>>> {
    match meta {
        Some(m) => Some(texts(m.directions@)),
        None => None,
    }
}

/// A copy of a list of strings.
fn copy_texts(list: &Vec<String>) -> (r: Vec<String>)
    ensures
        texts(r@) == texts(list@),
{
    let mut r: Vec<String> = Vec::new();
    let mut i: usize = 0;
    while i < list.len()
        invariant
            0 <= i <= list@.len(),
            r@.len() == i,
            forall|j: int| 0 <= j < i ==> r@[j]@ == list@[j]@,
        decreases list.len() - i,
    {
        r.push(list[i].clone());
        i += 1;
    }
    assert(texts(r@) =~= texts(list@));
    r
}

/// Puts the route's own directions in where the page names none.
pub fn apply_fallback(h: Headers, meta: Option<&RouteMeta>) -> (r: Headers)
    requires
        h@.wf(),
    ensures
        r@ == with_fallback(h@, known_directions(meta)),
        r@.wf(),
{
    if h.directions.len() > 0 {
        return h;
    }
    match meta {
        None => h,
        Some(m) => {
            let directions = copy_texts(&m.directions);
            if directions.len() == 0 {
                let r = Headers { directions, columns: h.columns, note_col: h.note_col };
                assert(r@.directions =~= texts(m.directions@));
                r
            } else {
                let ghost known = texts(m.directions@);
                assert(known.len() == directions@.len());
                let mut columns: Vec<Option<usize>> = Vec::new();
                columns.push(None);
                let mut i: usize = 0;
                while i < directions.len()
                    invariant
                        0 <= i <= directions@.len(),
                        texts(directions@) == known,
                        known.len() == directions@.len(),
                        columns@.len() == i + 1,
                        columns@[0] == None::<usize>,
                        forall|j: int|
                            0 <= j < i ==> (#[trigger] columns@[j + 1]) is Some && columns@[j
                                + 1]->0 == position_in(known, known[j]) && 0 <= position_in(
                                known,
                                known[j],
                            ) < known.len(),
                    decreases directions.len() - i,
                {
                    let at = find_text(&directions, directions[i].as_str());
                    proof {
                        lemma_position_in(known, known[i as int]);
                        assert(texts(directions@)[i as int] == directions@[i as int]@);
                    }
                    columns.push(Some(at));
                    i += 1;
                }
                let r = Headers { directions, columns, note_col: h.note_col };
                assert(r@.columns =~= fallback_columns(known)) by {
                    assert forall|c: int| 0 <= c < r@.columns.len() implies r@.columns[c]
                        == fallback_columns(known)[c] by {
                        if c > 0 {
                            assert(columns@[(c - 1) + 1] == columns@[c]);
                        }
                    }
                }
                assert forall|c: int|
                    0 <= c < r@.columns.len() && (#[trigger] r@.columns[c]) is Some implies
                    r@.columns[c]->0 < r@.directions.len() by {
                    assert(r@.directions == known);
                    if c > 0 {
                        assert(columns@[(c - 1) + 1] == columns@[c]);
                        assert(position_in(known, known[c - 1]) < known.len());
                    }
                }
                r
            }
        },
    }
}

/// The note of a row: the trimmed text of the cell in the notes' column,
/// where the row has that cell and the text is not empty.
pub open spec fn row_note(cells: Seq<Seq<char>>, note_col: Option<usize>) -> Option<Seq<char>> {
    match note_col {
        Some(idx) => if idx < cells.len() && trimmed(cells[idx as int]).len() > 0 {
            Some(trimmed(cells[idx as int]))
        } else {
            None
        },
        None => None,
    }
}

/// The departure that a cell holds: what the time pattern finds at the
/// start of its trimmed text.
pub open spec fn cell_time(cell: Seq<char>) -> Option<Seq<char>> {
    first_group(TIME_PATTERN@, trimmed(cell))
}

/// The departures after cell `col` of a row has been read: where the
/// column points at a direction and the cell holds a departure, the
/// departure joins that direction's list with the row's note.
pub open spec fn add_cell(
    times: Seq<Seq<TimeEntryView>>,
    columns: Seq<Option<usize>>,
    col: int,
    cell: Seq<char>,
    note: Option<Seq<char>>,
) -> Seq<Seq<TimeEntryView>> {
    if col < columns.len() && columns[col] is Some && columns[col]->0 < times.len() && cell_time(
        cell,
    ) is Some {
        let d = columns[col]->0 as int;
        times.update(d, times[d].push(TimeEntryView { time: cell_time(cell)->0, note }))
    } else {
        times
    }
}

/// The departures after the first `upto` cells of a row have been read.
pub open spec fn add_cells(
    times: Seq<Seq<TimeEntryView>>,
    columns: Seq<Option<usize>>,
    cells: Seq<Seq<char>>,
    note: Option<Seq<char>>,
    upto: int,
) -> Seq<Seq<TimeEntryView>>
    decreases upto,
{
    if upto <= 0 {
        times
    } else {
        add_cell(add_cells(times, columns, cells, note, upto - 1), columns, upto - 1, cells[upto - 1], note)
    }
}

/// The departures after the first `upto` rows of a table have been read.
pub open spec fn add_rows(
    times: Seq<Seq<TimeEntryView>>,
    columns: Seq<Option<usize>>,
    note_col: Option<usize>,
    rows: Seq<PageRow>,
    upto: int,
) -> Seq<Seq<TimeEntryView>>
    decreases upto,
{
    if upto <= 0 {
        times
    } else {
        let cells = texts(rows[upto - 1].cells@);
        add_cells(
            add_rows(times, columns, note_col, rows, upto - 1),
            columns,
            cells,
            row_note(cells, note_col),
            cells.len() as int,
        )
    }
}

/// One empty list of departures per direction.
pub open spec fn no_times(directions: int) -> Seq<Seq<TimeEntryView>> {
    Seq::new(directions as nat, |i: int| Seq::<TimeEntryView>::empty())
}

/// Reads the note of a row.
fn read_note(cells: &Vec<String>, note_col: Option<usize>) -> (r: Option<String>)
    ensures
        r is Some <==> row_note(texts(cells@), note_col) is Some,
        r matches Some(n) ==> row_note(texts(cells@), note_col) == Some(n@),
{
    match note_col {
        Some(idx) => {
            if idx < cells.len() {
                let text = trim(cells[idx].as_str());
                if text.as_str().is_empty() {
                    None
                } else {
                    Some(text)
                }
            } else {
                None
            }
        },
        None => None,
    }
}

/// Collects the departures of every direction from the rows of a table.
pub fn collect_times(rows: &Vec<PageRow>, h: &Headers) -> (times: Vec<Vec<TimeEntry>>)
    requires
        h@.wf(),
    ensures
        times_view(times@) == add_rows(
            no_times(h@.directions.len() as int),
            h@.columns,
            h@.note_col,
            rows@,
            rows@.len() as int,
        ),
        times@.len() == h@.directions.len(),
{
    let mut times: Vec<Vec<TimeEntry>> = Vec::new();
    while times.len() < h.directions.len()
        invariant
            times@.len() <= h.directions@.len(),
            forall|i: int| 0 <= i < times@.len() ==> (#[trigger] times@[i])@.len() == 0,
        decreases h.directions.len() - times.len(),
    {
        times.push(Vec::new());
    }
    assert(h@.directions.len() == h.directions@.len());
    assert(times_view(times@) =~= no_times(h@.directions.len() as int)) by {
        assert forall|i: int| 0 <= i < times@.len() implies times_view(times@)[i]
            =~= Seq::<TimeEntryView>::empty() by {
            assert(times@[i]@.len() == 0);
        }
    }
    let mut r: usize = 0;
    while r < rows.len()
        invariant
            0 <= r <= rows@.len(),
            h@.wf(),
            times@.len() == h@.directions.len(),
            times_view(times@) == add_rows(
                no_times(h@.directions.len() as int),
                h@.columns,
                h@.note_col,
                rows@,
                r as int,
            ),
        decreases rows.len() - r,
    {
        let row = &rows[r];
        let note = read_note(&row.cells, h.note_col);
        let ghost note_view = row_note(texts(row.cells@), h@.note_col);
        let ghost start = times_view(times@);
        let mut col: usize = 0;
        while col < row.cells.len()
            invariant
                0 <= col <= row.cells@.len(),
                h@.wf(),
                times@.len() == h@.directions.len(),
                note is Some <==> note_view is Some,
                note matches Some(n) ==> note_view == Some(n@),
                times_view(times@) == add_cells(
                    start,
                    h@.columns,
                    texts(row.cells@),
                    note_view,
                    col as int,
                ),
            decreases row.cells.len() - col,
        {
            let ghost prev = times_view(times@);
            if col < h.columns.len() {
                match h.columns[col] {
                    Some(d) => {
                        let text = trim(row.cells[col].as_str());
                        match capture_first_group(TIME_PATTERN, text.as_str()) {
                            Some(time) => {
                                let entry_note = match &note {
                                    Some(n) => Some(n.clone()),
                                    None => None,
                                };
                                let entry = TimeEntry { time, note: entry_note };
                                let ghost old_times = times@;
                                times[d].push(entry);
                                assert(times_view(times@) =~= prev.update(
                                    d as int,
                                    prev[d as int].push(entry@),
                                )) by {
                                    assert(times@.len() == old_times.len());
                                    assert forall|i: int| 0 <= i < times@.len() implies times_view(
                                        times@,
                                    )[i] =~= prev.update(d as int, prev[d as int].push(entry@))[i] by {
                                        if i != d {
                                            assert(times@[i] == old_times[i]);
                                        }
                                    }
                                }
                            },
                            None => {},
                        }
                    },
                    None => {},
                }
            }
            assert(times_view(times@) == add_cell(
                prev,
                h@.columns,
                col as int,
                texts(row.cells@)[col as int],
                note_view,
            ));
            col += 1;
        }
        r += 1;
    }
    times
}

/// Why a page yields no timetable.
#[derive(Clone, Copy, Debug, PartialEq, Eq, Structural)]
pub enum ScheduleError {
    /// The page holds no table.
    NoTable,
}

/// The timetable that the tables of a page hold for the route
/// `route_id`, whose directions may be known from elsewhere.
pub open spec fn schedule_of(
    tables: Seq<PageTable>,
    chosen: int,
    route_id: Seq<char>,
    known: Option<Seq<Seq<char>>>,
) -> ParsedScheduleView {
    let rows = tables[chosen].rows@;
    let h = with_fallback(scan_rows(HeaderScan::empty(), rows, rows.len() as int), known);
    ParsedScheduleView {
        route_number: route_number_of(route_id),
        day_type: day_type_of(lowercase_of(raw_day_type_of(route_id))),
        directions: h.directions,
        times_by_direction: add_rows(
            no_times(h.directions.len() as int),
            h.columns,
            h.note_col,
            rows,
            rows.len() as int,
        ),
    }
}

/// Reads the timetable of a route from the tables of its page. A page
/// without tables is the one failure.
pub fn schedule_from_tables(tables: &Vec<PageTable>, route_id: &str, meta: Option<&RouteMeta>) -> (r:
    Result<ParsedSchedule, ScheduleError>)
    ensures
        r is Err <==> tables@.len() == 0,
        r matches Err(e) ==> e == ScheduleError::NoTable,
        r matches Ok(s) ==> exists|i: int|
            is_schedule_table(tables@, i) && s@ == schedule_of(
                tables@,
                i,
                route_id@,
                known_directions(meta),
            ),
{
    let label = split_route_id(route_id);
    let day_type = normalize_day_type(label.raw_day_type.as_str());
    match choose_table(tables) {
        None => Err(ScheduleError::NoTable),
        Some(i) => {
            let table = &tables[i];
            let h = apply_fallback(scan_headers(&table.rows), meta);
            let times = collect_times(&table.rows, &h);
            let Headers { directions, columns: _, note_col: _ } = h;
            let s = ParsedSchedule {
                route_number: label.route_number,
                day_type,
                directions,
                times_by_direction: times,
            };
            assert(s@ == schedule_of(tables@, i as int, route_id@, known_directions(meta)));
            Ok(s)
        },
    }
}

/// Reads the timetable of a route from its page: what the tables of the
/// page hold for the route. It fails on a page without a table, and on no
/// other. Route number and kind of day come from the route's identifier
/// alone.
pub fn parse_detail_schedule(html: &str, route_id: &str, meta: Option<&RouteMeta>) -> (r: Result<
    ParsedSchedule,
    ScheduleError,
>)
    ensures
        r is Err <==> table_elements(html@).len() == 0,
        r matches Ok(s) ==> exists|tables: Seq<PageTable>, i: int|
            are_tables_of(tables, table_elements(html@)) && is_schedule_table(tables, i) && s@
                == schedule_of(tables, i, route_id@, known_directions(meta)),
        r matches Ok(s) ==> s@.route_number == route_number_of(route_id@) && s@.day_type
            == day_type_of(lowercase_of(raw_day_type_of(route_id@))) && s@.times_by_direction.len()
            == s@.directions.len(),
        r matches Err(e) ==> e == ScheduleError::NoTable,
{
    let tables = page_tables(html);
    let r = schedule_from_tables(&tables, route_id, meta);
    proof {
        if r is Ok {
            let i = choose|i: int|
                is_schedule_table(tables@, i) && r->Ok_0@ == schedule_of(
                    tables@,
                    i,
                    route_id@,
                    known_directions(meta),
                );
            lemma_schedule_has_times_per_direction(tables@, i, route_id@, known_directions(meta));
        }
    }
    r
}

/// Reading rows keeps one list of departures per direction.
pub proof fn lemma_add_rows_len(
    times: Seq<Seq<TimeEntryView>>,
    columns: Seq<Option<usize>>,
    note_col: Option<usize>,
    rows: Seq<PageRow>,
    upto: int,
)
    ensures
        add_rows(times, columns, note_col, rows, upto).len() == times.len(),
    decreases upto,
{
    if upto > 0 {
        lemma_add_rows_len(times, columns, note_col, rows, upto - 1);
        let cells = texts(rows[upto - 1].cells@);
        lemma_add_cells_len(
            add_rows(times, columns, note_col, rows, upto - 1),
            columns,
            cells,
            row_note(cells, note_col),
            cells.len() as int,
        );
    }
}

/// Reading cells keeps one list of departures per direction.
pub proof fn lemma_add_cells_len(
    times: Seq<Seq<TimeEntryView>>,
    columns: Seq<Option<usize>>,
    cells: Seq<Seq<char>>,
    note: Option<Seq<char>>,
    upto: int,
)
    ensures
        add_cells(times, columns, cells, note, upto).len() == times.len(),
    decreases upto,
{
    if upto > 0 {
        lemma_add_cells_len(times, columns, cells, note, upto - 1);
    }
}

/// A timetable holds one list of departures per direction.
pub proof fn lemma_schedule_has_times_per_direction(
    tables: Seq<PageTable>,
    chosen: int,
    route_id: Seq<char>,
    known: Option<Seq<Seq<char>>>,
)
    ensures
        schedule_of(tables, chosen, route_id, known).times_by_direction.len() == schedule_of(
            tables,
            chosen,
            route_id,
            known,
        ).directions.len(),
{
    let rows = tables[chosen].rows@;
    let h = with_fallback(scan_rows(HeaderScan::empty(), rows, rows.len() as int), known);
    lemma_add_rows_len(
        no_times(h.directions.len() as int),
        h.columns,
        h.note_col,
        rows,
        rows.len() as int,
    );
}

/// A route of the index page with what the page says of it.
pub struct RouteEntry {
    pub route_no: String,
    pub meta: RouteMeta,
}

/// A route of the index page as the contracts see it.
pub struct RouteEntryView {
    pub route_no: Seq<char>,
    pub origin: Seq<char>,
    pub destination: Seq<char>,
    pub directions: Seq<Seq<char>>,
}

impl View for RouteEntry {
    type V = RouteEntryView;

    open spec fn view(&self) -> RouteEntryView {
        RouteEntryView {
            route_no: self.route_no@,
            origin: self.meta.origin@,
            destination: self.meta.destination@,
            directions: texts(self.meta.directions@),
        }
    }
}

/// What the index page holds: its routes in the order in which they are
/// first listed, no route number twice, and the identifiers of the
/// timetables to fetch, in the order of the page.
pub struct RouteInfo {
    pub routes: Vec<RouteEntry>,
    pub targets: Vec<String>,
}

/// The index page as the contracts see it.
pub struct RouteInfoView {
    pub routes: Seq<RouteEntryView>,
    pub targets: Seq<Seq<char>>,
}

/// The routes of a list as the contracts see them.
pub open spec fn routes_view(routes: Seq<RouteEntry>) -> Seq<RouteEntryView> {
    Seq::new(routes.len(), |i: int| routes[i]@)
}

impl View for RouteInfo {
    type V = RouteInfoView;

    open spec fn view(&self) -> RouteInfoView {
        RouteInfoView { routes: routes_view(self.routes@), targets: texts(self.targets@) }
    }
}

/// Fewest data cells of a row that lists a timetable.
pub const INDEX_ROW_CELLS: usize = 6;

/// The identifier of the timetable that a row of the index page lists:
/// what the call in its first cell hands on, in a row with enough cells.
pub open spec fn row_route_id(row: PageRow) -> Option<Seq<char>> {
    if row.cells@.len() >= INDEX_ROW_CELLS && row.onclick is Some {
        first_group(DETAIL_CALL_PATTERN@, row.onclick->0@)
    } else {
        None
    }
}

/// An identifier passes the filter if there is none or the identifier
/// starts with it.
pub open spec fn passes(id: Seq<char>, filter: Option<&str>) -> bool {
    filter matches Some(f) ==> is_prefix(id, f@)
}

/// The route numbers of a list of routes, in order.
pub open spec fn route_numbers(routes: Seq<RouteEntryView>) -> Seq<Seq<char>> {
    Seq::new(routes.len(), |i: int| routes[i].route_no)
}

/// The directions of a route after a timetable from `origin` to
/// `destination` has been listed for it.
pub open spec fn with_termini(
    directions: Seq<Seq<char>>,
    origin: Seq<char>,
    destination: Seq<char>,
) -> Seq<Seq<char>> {
    sorted_insert(sorted_insert(directions, origin), destination)
}

/// The routes after a timetable of route `route_no` from `origin` to
/// `destination` has been listed. A route keeps the termini of its first
/// timetable as origin and destination; its directions hold the termini of
/// all its timetables in ascending order, none twice.
pub open spec fn with_route(
    routes: Seq<RouteEntryView>,
    route_no: Seq<char>,
    origin: Seq<char>,
    destination: Seq<char>,
) -> Seq<RouteEntryView> {
    let at = position_in(route_numbers(routes), route_no);
    if at < routes.len() {
        routes.update(
            at,
            RouteEntryView {
                directions: with_termini(routes[at].directions, origin, destination),
                ..routes[at]
            },
        )
    } else {
        routes.push(
            RouteEntryView {
                route_no,
                origin,
                destination,
                directions: with_termini(Seq::empty(), origin, destination),
            },
        )
    }
}

/// The index after a row has been read.
pub open spec fn take_row(info: RouteInfoView, row: PageRow, filter: Option<&str>) -> RouteInfoView {
    if row_route_id(row) is Some && passes(row_route_id(row)->0, filter) {
        let id = row_route_id(row)->0;
        RouteInfoView {
            routes: with_route(
                info.routes,
                before_first(id, '('),
                trimmed(row.cells@[1]@),
                trimmed(row.cells@[2]@),
            ),
            targets: info.targets.push(id),
        }
    } else {
        info
    }
}

/// The index after the first `upto` rows have been read.
pub open spec fn take_rows(rows: Seq<PageRow>, filter: Option<&str>, upto: int) -> RouteInfoView
    decreases upto,
{
    if upto <= 0 {
        RouteInfoView { routes: Seq::empty(), targets: Seq::empty() }
    } else {
        take_row(take_rows(rows, filter, upto - 1), rows[upto - 1], filter)
    }
}

/// Position of the route of number `route_no` in a list of routes, or the
/// length of the list where it holds no such route.
pub fn find_route(routes: &Vec<RouteEntry>, route_no: &str) -> (at: usize)
    ensures
        at == position_in(route_numbers(routes_view(routes@)), route_no@),
        at <= routes@.len(),
{
    let ghost numbers = route_numbers(routes_view(routes@));
    let mut i: usize = 0;
    while i < routes.len()
        invariant
            0 <= i <= routes@.len(),
            numbers == route_numbers(routes_view(routes@)),
            forall|j: int| 0 <= j < i ==> numbers[j] != route_no@,
        decreases routes.len() - i,
    {
        assert(numbers[i as int] == routes@[i as int].route_no@);
        if same_text(routes[i].route_no.as_str(), route_no) {
            proof {
                lemma_position_is(numbers, route_no@, i as int);
            }
            return i;
        }
        i += 1;
    }
    proof {
        lemma_position_is(numbers, route_no@, i as int);
    }
    i
}

/// Whether an identifier passes the filter.
fn passes_filter(id: &str, filter: Option<&str>) -> (r: bool)
    ensures
        r == passes(id@, filter),
{
    match filter {
        Some(f) => starts_with(id, f),
        None => true,
    }
}

/// The identifier of the timetable that a row lists.
fn read_route_id(row: &PageRow) -> (r: Option<String>)
    ensures
        r is Some <==> row_route_id(*row) is Some,
        r matches Some(id) ==> row_route_id(*row) == Some(id@),
{
    if row.cells.len() >= INDEX_ROW_CELLS {
        match &row.onclick {
            Some(call) => capture_first_group(DETAIL_CALL_PATTERN, call.as_str()),
            None => None,
        }
    } else {
        None
    }
}

/// Reads the routes and the timetables to fetch from the rows of the index
/// page. With a filter, only timetables whose identifier starts with it
/// count.
pub fn route_info_from_rows(rows: &Vec<PageRow>, filter: Option<&str>) -> (info: RouteInfo)
    ensures
        info@ == take_rows(rows@, filter, rows@.len() as int),
{
    let mut routes: Vec<RouteEntry> = Vec::new();
    let mut targets: Vec<String> = Vec::new();
    assert(routes_view(routes@) =~= Seq::empty());
    assert(texts(targets@) =~= Seq::empty());
    let mut r: usize = 0;
    while r < rows.len()
        invariant
            0 <= r <= rows@.len(),
            routes_view(routes@) == take_rows(rows@, filter, r as int).routes,
            texts(targets@) == take_rows(rows@, filter, r as int).targets,
        decreases rows.len() - r,
    {
        let row = &rows[r];
        let ghost prev_routes = routes_view(routes@);
        let ghost prev_targets = texts(targets@);
        match read_route_id(row) {
            Some(id) => {
                if passes_filter(id.as_str(), filter) {
                    let route_no = head_before(id.as_str(), '(');
                    let origin = trim(row.cells[1].as_str());
                    let destination = trim(row.cells[2].as_str());
                    let at = find_route(&routes, route_no.as_str());
                    if at < routes.len() {
                        let ghost old_routes = routes@;
                        let mut entry = routes.remove(at);
                        insert_sorted(&mut entry.meta.directions, origin.as_str());
                        insert_sorted(&mut entry.meta.directions, destination.as_str());
                        routes.insert(at, entry);
                        assert(routes_view(routes@) =~= with_route(
                            prev_routes,
                            route_no@,
                            origin@,
                            destination@,
                        )) by {
                            assert(prev_routes[at as int] == old_routes[at as int]@);
                            assert forall|i: int| 0 <= i < routes@.len() && i != at implies routes@[i]
                                == old_routes[i] by {}
                        }
                    } else {
                        let mut directions: Vec<String> = Vec::new();
                        assert(texts(directions@) =~= Seq::empty());
                        insert_sorted(&mut directions, origin.as_str());
                        insert_sorted(&mut directions, destination.as_str());
                        routes.push(
                            RouteEntry { route_no, meta: RouteMeta { origin, destination, directions } },
                        );
                        assert(routes_view(routes@) =~= with_route(
                            prev_routes,
                            before_first(id@, '('),
                            trimmed(row.cells@[1]@),
                            trimmed(row.cells@[2]@),
                        ));
                    }
                    targets.push(id);
                    assert(texts(targets@) =~= prev_targets.push(row_route_id(*row)->0));
                }
            },
            None => {},
        }
        r += 1;
    }
    RouteInfo { routes, targets }
}

/// Reads the routes and the timetables to fetch from the index page: what
/// the rows of its tables hold.
pub fn extract_route_info(html: &str, filter: Option<&str>) -> (info: RouteInfo)
    ensures
        exists|rows: Seq<PageRow>| info@ == take_rows(rows, filter, rows.len() as int),
{
    let rows = page_rows(html);
    route_info_from_rows(&rows, filter)
}

/// Listing a timetable keeps the directions of every route ascending.
pub proof fn lemma_with_termini_ascending(
    directions: Seq<Seq<char>>,
    origin: Seq<char>,
    destination: Seq<char>,
)
    requires
        is_ascending(directions),
    ensures
        is_ascending(with_termini(directions, origin, destination)),
        with_termini(directions, origin, destination).contains(origin),
        with_termini(directions, origin, destination).contains(destination),
{
    lemma_sorted_insert(directions, origin);
    lemma_sorted_insert(sorted_insert(directions, origin), destination);
}

} // verus!
