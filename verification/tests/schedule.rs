use polly::schedule::html::{page_rows, page_tables, PageRow, PageTable};
use polly::schedule::merge::{merge_schedules, split_time, MergedRoute};
use polly::schedule::model::{ParsedSchedule, RouteMeta, TimeEntry};
use polly::schedule::parse::{
    apply_fallback, choose_table, collect_times, day_type_of_lowered, extract_route_info,
    normalize_day_type, parse_detail_schedule, route_info_from_rows, scan_headers,
    schedule_from_tables, split_route_id, RouteEntry, ScheduleError,
};
use polly::schedule::{has_times, schedule_file_name, POLITENESS_DELAY_MS};

const INDEX_PAGE: &str = r#"<html><body><table>
<tr><th>노선</th><th>기점</th><th>종점</th><th>첫차</th><th>막차</th><th>횟수</th></tr>
<tr><td onclick="goDetail('34-1(평일)')">34-1</td><td> 원주역 </td><td>터미널</td><td>1</td><td>2</td><td>3</td></tr>
<tr><td onclick="goDetail('34-1(주말)')">34-1</td><td>원주역</td><td>
  시청 </td><td>1</td><td>2</td><td>3</td></tr>
<tr><td onclick="javascript:goDetail('2');">2</td><td>강원대</td><td>원주역</td><td>1</td><td>2</td><td>3</td></tr>
<tr><td onclick="goDetail('9')">9</td><td>a</td><td>b</td></tr>
<tr><td>10</td><td>a</td><td>b</td><td>1</td><td>2</td><td>3</td></tr>
<tr><td onclick="other('11')">11</td><td>a</td><td>b</td><td>1</td><td>2</td><td>3</td></tr>
</table></body></html>"#;

const DETAIL_PAGE: &str = r#"<html><body>
<table><tr><td>안내</td></tr></table>
<table>
<tr><th>운행순번</th><th>원주역발</th><th> 터미널발 </th><th>비고</th></tr>
<tr><td>1</td><td>06:30</td><td> 7:05 (경유)</td><td> 첫차 </td></tr>
<tr><td>2</td><td>08:00</td><td></td><td></td></tr>
<tr><td>3</td><td>-</td><td>21:40</td><td>막차</td></tr>
</table></body></html>"#;

fn texts(list: &[&str]) -> Vec<String> {
    list.iter().map(|s| s.to_string()).collect()
}

fn row(headers: &[&str], cells: &[&str]) -> PageRow {
    PageRow { headers: texts(headers), cells: texts(cells), onclick: None }
}

fn index_row(onclick: Option<&str>, cells: &[&str]) -> PageRow {
    PageRow { headers: vec![], cells: texts(cells), onclick: onclick.map(|s| s.to_string()) }
}

fn entry(time: &str, note: Option<&str>) -> TimeEntry {
    TimeEntry { time: time.to_string(), note: note.map(|s| s.to_string()) }
}

fn times(list: &Vec<TimeEntry>) -> Vec<(String, Option<String>)> {
    list.iter().map(|e| (e.time.clone(), e.note.clone())).collect()
}

fn pair(time: &str, note: Option<&str>) -> (String, Option<String>) {
    (time.to_string(), note.map(|s| s.to_string()))
}

fn schedule(number: &str, day: &str, directions: &[&str], times: Vec<Vec<TimeEntry>>) -> ParsedSchedule {
    ParsedSchedule {
        route_number: number.to_string(),
        day_type: day.to_string(),
        directions: texts(directions),
        times_by_direction: times,
    }
}

fn known(number: &str, origin: &str, destination: &str, directions: &[&str]) -> RouteEntry {
    RouteEntry {
        route_no: number.to_string(),
        meta: RouteMeta {
            origin: origin.to_string(),
            destination: destination.to_string(),
            directions: texts(directions),
        },
    }
}

fn departures(route: &MergedRoute, day: usize) -> Vec<(String, String, String, Option<usize>)> {
    route.days[day]
        .departures
        .iter()
        .map(|d| (d.direction.clone(), d.hour.clone(), d.minute.clone(), d.note_id))
        .collect()
}

fn dep(direction: &str, hour: &str, minute: &str, note: Option<usize>) -> (String, String, String, Option<usize>) {
    (direction.to_string(), hour.to_string(), minute.to_string(), note)
}

#[test]
fn weekday_labels() {
    assert_eq!(normalize_day_type("평일"), "weekday");
    assert_eq!(normalize_day_type("주중"), "weekday");
    assert_eq!(day_type_of_lowered("평일"), "weekday");
}

#[test]
fn weekend_labels() {
    for label in ["주말", "휴일", "토요일", "일요일", "토", "일", "방학", "공휴일", "토,일,공휴일"] {
        assert_eq!(normalize_day_type(label), "weekend");
        assert_eq!(day_type_of_lowered(label), "weekend");
    }
}

#[test]
fn weekday_wins_over_weekend() {
    assert_eq!(normalize_day_type("평일/주말"), "weekday");
    assert_eq!(normalize_day_type("주말 및 주중"), "weekday");
}

#[test]
fn other_labels_are_general() {
    assert_eq!(normalize_day_type("general"), "general");
    assert_eq!(normalize_day_type(""), "general");
    assert_eq!(normalize_day_type("WEEKDAY"), "general");
    assert_eq!(day_type_of_lowered("매"), "general");
}

#[test]
fn route_id_with_day_type() {
    let l = split_route_id("34-1(평일)");
    assert_eq!(l.route_number, "34-1");
    assert_eq!(l.raw_day_type, "평일");
    let l = split_route_id("34-1 (토,일)");
    assert_eq!(l.route_number, "34-1");
    assert_eq!(l.raw_day_type, "토,일");
    let l = split_route_id("2(방학)(임시)");
    assert_eq!(l.route_number, "2");
    assert_eq!(l.raw_day_type, "방학)(임시");
}

#[test]
fn route_id_without_day_type() {
    let l = split_route_id("34-1");
    assert_eq!(l.route_number, "34-1");
    assert_eq!(l.raw_day_type, "general");
    let l = split_route_id(" 34 ");
    assert_eq!(l.route_number, " 34 ");
    assert_eq!(l.raw_day_type, "general");
    let l = split_route_id("");
    assert_eq!(l.route_number, "");
    assert_eq!(l.raw_day_type, "general");
}

#[test]
fn rows_of_the_index_page() {
    let rows = page_rows(INDEX_PAGE);
    assert_eq!(rows.len(), 7);
    assert_eq!(rows[0].headers.len(), 6);
    assert!(rows[0].cells.is_empty());
    assert_eq!(rows[0].onclick, None);
    assert_eq!(rows[1].cells.len(), 6);
    assert_eq!(rows[1].cells[1], " 원주역 ");
    assert_eq!(rows[1].onclick.as_deref(), Some("goDetail('34-1(평일)')"));
    assert_eq!(rows[4].cells.len(), 3);
    assert_eq!(rows[5].onclick, None);
}

#[test]
fn tables_of_the_detail_page() {
    let tables = page_tables(DETAIL_PAGE);
    assert_eq!(tables.len(), 2);
    assert!(tables[0].header_texts.is_empty());
    assert_eq!(tables[0].rows.len(), 1);
    assert_eq!(tables[1].header_texts, texts(&["운행순번", "원주역발", " 터미널발 ", "비고"]));
    assert_eq!(tables[1].rows.len(), 4);
    assert_eq!(tables[1].rows[1].cells, texts(&["1", "06:30", " 7:05 (경유)", " 첫차 "]));
    assert!(page_tables("plain text").is_empty());
}

#[test]
fn route_info_of_the_index_page() {
    let info = extract_route_info(INDEX_PAGE, None);
    assert_eq!(info.targets, texts(&["34-1(평일)", "34-1(주말)", "2"]));
    assert_eq!(info.routes.len(), 2);
    assert_eq!(info.routes[0].route_no, "34-1");
    assert_eq!(info.routes[0].meta.origin, "원주역");
    assert_eq!(info.routes[0].meta.destination, "터미널");
    assert_eq!(info.routes[0].meta.directions, texts(&["시청", "원주역", "터미널"]));
    assert_eq!(info.routes[1].route_no, "2");
    assert_eq!(info.routes[1].meta.origin, "강원대");
    assert_eq!(info.routes[1].meta.destination, "원주역");
    assert_eq!(info.routes[1].meta.directions, texts(&["강원대", "원주역"]));
}

#[test]
fn route_info_with_filter() {
    let info = extract_route_info(INDEX_PAGE, Some("34"));
    assert_eq!(info.targets, texts(&["34-1(평일)", "34-1(주말)"]));
    assert_eq!(info.routes.len(), 1);
    let info = extract_route_info(INDEX_PAGE, Some("2"));
    assert_eq!(info.targets, texts(&["2"]));
    let info = extract_route_info(INDEX_PAGE, Some("7"));
    assert!(info.targets.is_empty());
    assert!(info.routes.is_empty());
    let info = extract_route_info(INDEX_PAGE, Some("4-1"));
    assert!(info.targets.is_empty());
}

#[test]
fn route_info_from_plain_rows() {
    let rows = vec![
        index_row(Some("goDetail('5(평일)')"), &["5", "B", "A", "", "", ""]),
        index_row(Some("goDetail('5(평일)')"), &["5", "B", "A", "", ""]),
        index_row(Some("goDetail('')"), &["5", "B", "A", "", "", ""]),
        index_row(None, &["5", "B", "A", "", "", ""]),
        index_row(Some("goDetail('5(주말)')"), &["5", "C", "A", "", "", "", ""]),
    ];
    let info = route_info_from_rows(&rows, None);
    assert_eq!(info.targets, texts(&["5(평일)", "5(주말)"]));
    assert_eq!(info.routes.len(), 1);
    assert_eq!(info.routes[0].meta.origin, "B");
    assert_eq!(info.routes[0].meta.destination, "A");
    assert_eq!(info.routes[0].meta.directions, texts(&["A", "B", "C"]));
    let none = route_info_from_rows(&vec![], None);
    assert!(none.targets.is_empty() && none.routes.is_empty());
}

#[test]
fn schedule_table_is_the_first_that_names_a_departure() {
    let plain = PageTable { header_texts: texts(&["시", "분"]), rows: vec![] };
    let named = PageTable { header_texts: texts(&["구분", "원주역발"]), rows: vec![] };
    let other = PageTable { header_texts: texts(&["터미널발"]), rows: vec![] };
    assert_eq!(choose_table(&vec![]), None);
    assert_eq!(choose_table(&vec![plain]), Some(0));
    let plain = PageTable { header_texts: texts(&["시", "분"]), rows: vec![] };
    assert_eq!(choose_table(&vec![plain, named, other]), Some(1));
}

#[test]
fn headers_name_directions_and_notes() {
    let rows = vec![
        row(&["운행순번", "원주역발", " 터미널발 ", "비고"], &[]),
        row(&[], &["1", "06:30", "07:05", ""]),
        row(&["구분", "시", "분", "6시", "12시", ""], &[]),
    ];
    let h = scan_headers(&rows);
    assert_eq!(h.directions, texts(&["원주역", "터미널"]));
    assert_eq!(h.columns, vec![None, Some(0), Some(1)]);
    assert_eq!(h.note_col, Some(3));
}

#[test]
fn repeated_direction_keeps_one_entry_and_later_column_wins() {
    let rows = vec![row(&["A발", "B발", "A발"], &[]), row(&["B", "비고", "비고"], &[])];
    let h = scan_headers(&rows);
    assert_eq!(h.directions, texts(&["A", "B"]));
    assert_eq!(h.columns, vec![Some(1), Some(1), Some(0)]);
    assert_eq!(h.note_col, Some(2));
}

#[test]
fn header_far_to_the_right_leaves_a_gap() {
    let rows = vec![row(&["시", "분", "", "A발"], &[])];
    let h = scan_headers(&rows);
    assert_eq!(h.directions, texts(&["A"]));
    assert_eq!(h.columns, vec![None, None, None, Some(0)]);
    assert_eq!(h.note_col, None);
}

#[test]
fn known_directions_stand_in_for_missing_headers() {
    let rows = vec![row(&["시", "분"], &[])];
    let meta =
        RouteMeta { origin: "A".to_string(), destination: "B".to_string(), directions: texts(&["A", "B"]) };
    let h = apply_fallback(scan_headers(&rows), Some(&meta));
    assert_eq!(h.directions, texts(&["A", "B"]));
    assert_eq!(h.columns, vec![None, Some(0), Some(1)]);
    let h = apply_fallback(scan_headers(&rows), None);
    assert!(h.directions.is_empty());
    assert!(h.columns.is_empty());
}

#[test]
fn named_headers_are_not_replaced() {
    let rows = vec![row(&["C발"], &[])];
    let meta =
        RouteMeta { origin: "A".to_string(), destination: "B".to_string(), directions: texts(&["A", "B"]) };
    let h = apply_fallback(scan_headers(&rows), Some(&meta));
    assert_eq!(h.directions, texts(&["C"]));
    assert_eq!(h.columns, vec![Some(0)]);
}

#[test]
fn times_are_collected_per_direction() {
    let rows = vec![
        row(&["운행순번", "원주역발", "터미널발", "비고"], &[]),
        row(&[], &["1", "06:30", " 7:05 (경유)", " 첫차 "]),
        row(&[], &["2", "08:00", "", ""]),
        row(&[], &["3", "-", "21:40", "막차", "99:99"]),
        row(&[], &["4", "9:5", "x10:00"]),
    ];
    let h = scan_headers(&rows);
    let t = collect_times(&rows, &h);
    assert_eq!(t.len(), 2);
    assert_eq!(times(&t[0]), vec![pair("06:30", Some("첫차")), pair("08:00", None)]);
    assert_eq!(times(&t[1]), vec![pair("7:05", Some("첫차")), pair("21:40", Some("막차"))]);
}

#[test]
fn detail_page_is_parsed() {
    let s = parse_detail_schedule(DETAIL_PAGE, "34-1(평일)", None).unwrap();
    assert_eq!(s.route_number, "34-1");
    assert_eq!(s.day_type, "weekday");
    assert_eq!(s.directions, texts(&["원주역", "터미널"]));
    assert_eq!(s.times_by_direction.len(), 2);
    assert_eq!(times(&s.times_by_direction[0]), vec![pair("06:30", Some("첫차")), pair("08:00", None)]);
    assert_eq!(
        times(&s.times_by_direction[1]),
        vec![pair("7:05", Some("첫차")), pair("21:40", Some("막차"))]
    );
    assert!(has_times(&s));
}

#[test]
fn detail_page_of_a_weekend_and_of_a_plain_route() {
    let s = parse_detail_schedule(DETAIL_PAGE, "34-1(토,일,공휴일)", None).unwrap();
    assert_eq!(s.day_type, "weekend");
    let s = parse_detail_schedule(DETAIL_PAGE, "2", None).unwrap();
    assert_eq!(s.route_number, "2");
    assert_eq!(s.day_type, "general");
}

#[test]
fn page_without_table_is_an_error() {
    assert_eq!(parse_detail_schedule("<p>점검 중</p>", "2", None).err(), Some(ScheduleError::NoTable));
    assert_eq!(parse_detail_schedule("", "2", None).err(), Some(ScheduleError::NoTable));
    assert_eq!(schedule_from_tables(&vec![], "2", None).err(), Some(ScheduleError::NoTable));
}

#[test]
fn page_without_headers_uses_known_directions() {
    let page = "<table><tr><td>1</td><td>06:00</td><td>06:40</td></tr>\
                <tr><td>2</td><td>07:00</td><td></td></tr></table>";
    let meta =
        RouteMeta { origin: "A".to_string(), destination: "B".to_string(), directions: texts(&["A", "B"]) };
    let s = parse_detail_schedule(page, "5(평일)", Some(&meta)).unwrap();
    assert_eq!(s.directions, texts(&["A", "B"]));
    assert_eq!(times(&s.times_by_direction[0]), vec![pair("06:00", None), pair("07:00", None)]);
    assert_eq!(times(&s.times_by_direction[1]), vec![pair("06:40", None)]);
    let s = parse_detail_schedule(page, "5(평일)", None).unwrap();
    assert!(s.directions.is_empty());
    assert!(s.times_by_direction.is_empty());
    assert!(!has_times(&s));
}

#[test]
fn time_with_one_colon_is_split_and_padded() {
    assert_eq!(split_time("7:05"), Some(("07".to_string(), "05".to_string())));
    assert_eq!(split_time("21:40"), Some(("21".to_string(), "40".to_string())));
    assert_eq!(split_time(":"), Some(("00".to_string(), "00".to_string())));
    assert_eq!(split_time("7:5"), Some(("07".to_string(), "05".to_string())));
    assert_eq!(split_time("123:456"), Some(("123".to_string(), "456".to_string())));
}

#[test]
fn time_without_or_with_two_colons_is_not_split() {
    assert_eq!(split_time("0705"), None);
    assert_eq!(split_time(""), None);
    assert_eq!(split_time("7:05:30"), None);
    assert_eq!(split_time("::"), None);
}

#[test]
fn timetables_of_a_route_are_merged() {
    let schedules = vec![
        schedule(
            "34-1",
            "weekday",
            &["원주역", "터미널"],
            vec![
                vec![entry("06:30", Some("첫차")), entry("8:00", None)],
                vec![entry("7:05", Some("경유")), entry("21:40", Some("첫차")), entry("bad", Some("기타"))],
            ],
        ),
        schedule("34-1", "weekend", &["원주역", "터미널"], vec![vec![entry("09:00", Some("경유"))], vec![]]),
        schedule("2", "general", &["강원대"], vec![vec![entry("10:10", None)]]),
    ];
    let metas = vec![known("34-1", "원주역", "터미널", &["시청", "원주역", "터미널"])];
    let merged = merge_schedules(&schedules, &metas);
    assert_eq!(merged.len(), 2);
    let r = &merged[0];
    assert_eq!(r.route_id, "34-1");
    assert_eq!(r.route_name, "34-1번");
    assert_eq!(r.description, "원주역 ↔ 터미널");
    assert_eq!(r.directions, texts(&["시청", "원주역", "터미널"]));
    assert_eq!(r.notes, texts(&["첫차", "경유", "기타"]));
    assert_eq!(r.days.len(), 2);
    assert_eq!(r.days[0].day_type, "weekday");
    assert_eq!(
        departures(r, 0),
        vec![
            dep("원주역", "06", "30", Some(0)),
            dep("원주역", "08", "00", None),
            dep("터미널", "07", "05", Some(1)),
            dep("터미널", "21", "40", Some(0)),
        ]
    );
    assert_eq!(r.days[1].day_type, "weekend");
    assert_eq!(departures(r, 1), vec![dep("원주역", "09", "00", Some(1))]);
    let q = &merged[1];
    assert_eq!(q.route_id, "2");
    assert_eq!(q.route_name, "2번");
    assert_eq!(q.description, " ↔ ");
    assert_eq!(q.directions, texts(&["강원대"]));
    assert!(q.notes.is_empty());
    assert_eq!(departures(q, 0), vec![dep("강원대", "10", "10", None)]);
}

#[test]
fn later_timetable_replaces_the_same_kind_of_day() {
    let schedules = vec![
        schedule("5", "weekend", &["A"], vec![vec![entry("06:00", Some("토"))]]),
        schedule("5", "weekday", &["A"], vec![vec![entry("07:00", None)]]),
        schedule("5", "weekend", &["A"], vec![vec![entry("08:00", Some("일")), entry("09:00", Some("토"))]]),
    ];
    let merged = merge_schedules(&schedules, &vec![]);
    assert_eq!(merged.len(), 1);
    let r = &merged[0];
    assert_eq!(r.days.len(), 2);
    assert_eq!(r.days[0].day_type, "weekend");
    assert_eq!(departures(r, 0), vec![dep("A", "08", "00", Some(1)), dep("A", "09", "00", Some(0))]);
    assert_eq!(r.days[1].day_type, "weekday");
    assert_eq!(departures(r, 1), vec![dep("A", "07", "00", None)]);
    assert_eq!(r.notes, texts(&["토", "일"]));
}

#[test]
fn merging_nothing_gives_nothing() {
    assert!(merge_schedules(&vec![], &vec![]).is_empty());
}

#[test]
fn timetable_without_departures_still_makes_a_day() {
    let merged = merge_schedules(&vec![schedule("5", "general", &["A", "B"], vec![vec![], vec![]])], &vec![]);
    assert_eq!(merged[0].days.len(), 1);
    assert!(merged[0].days[0].departures.is_empty());
    assert_eq!(merged[0].directions, texts(&["A", "B"]));
}

#[test]
fn file_name_keeps_letters_digits_and_hyphens() {
    assert_eq!(schedule_file_name("34-1"), "34-1.json");
    assert_eq!(schedule_file_name("34/1 a"), "34_1_a.json");
    assert_eq!(schedule_file_name("순환2"), "순환2.json");
    assert_eq!(schedule_file_name("a.b_c(d)"), "a_b_c_d_.json");
    assert_eq!(schedule_file_name(""), ".json");
}

#[test]
fn timetable_has_times_if_any_direction_has() {
    assert!(!has_times(&schedule("5", "general", &["A", "B"], vec![vec![], vec![]])));
    assert!(!has_times(&schedule("5", "general", &[], vec![])));
    assert!(has_times(&schedule("5", "general", &["A", "B"], vec![vec![], vec![entry("1:00", None)]])));
}

#[test]
fn politeness_delay() {
    assert_eq!(POLITENESS_DELAY_MS, 300);
}
