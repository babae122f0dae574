use polly::utils::text::{
    contains, find_char, find_text, head_before, insert_sorted, pad2, same_text, starts_with,
    strip_either, strip_end, text_less, to_chars,
};
use polly::utils::{extract_items, flexible_string, items_of, parse_flexible_string, resolve_url};
use serde_json::Value;

fn json(text: &str) -> Value {
    serde_json::from_str(text).unwrap()
}

#[test]
fn resolve_url_prefers_the_environment() {
    assert_eq!(
        resolve_url("http://localhost:5000/route/v1/driving", "http://default"),
        "http://localhost:5000/route/v1/driving"
    );
}

#[test]
fn resolve_url_falls_back_to_default() {
    assert_eq!(
        resolve_url("", "http://router.project-osrm.org/route/v1/driving"),
        "http://router.project-osrm.org/route/v1/driving"
    );
    assert_eq!(resolve_url("", ""), "");
}

#[test]
fn items_of_a_list() {
    let v = json(r#"{"response":{"body":{"items":{"item":[{"routeid":"A"},{"routeid":"B"}]}}}}"#);
    let items = extract_items(&v);
    assert_eq!(items.len(), 2);
    assert_eq!(items[0], json(r#"{"routeid":"A"}"#));
    assert_eq!(items[1], json(r#"{"routeid":"B"}"#));
}

#[test]
fn items_of_a_single_object() {
    let v = json(r#"{"response":{"body":{"items":{"item":{"routeid":"A","routeno":7}}}}}"#);
    let items = extract_items(&v);
    assert_eq!(items, vec![json(r#"{"routeid":"A","routeno":7}"#)]);
}

#[test]
fn items_of_an_answer_without_items() {
    assert!(extract_items(&json(r#"{"response":{"body":{"items":""}}}"#)).is_empty());
    assert!(extract_items(&json(r#"{"response":{"header":{"resultCode":"99"}}}"#)).is_empty());
    assert!(extract_items(&json("null")).is_empty());
    assert!(extract_items(&json(r#"{"response":{"body":{"items":{"item":"text"}}}}"#)).is_empty());
    assert!(extract_items(&json(r#"{"response":{"body":{"items":{"item":[]}}}}"#)).is_empty());
}

#[test]
fn items_of_plain_values() {
    assert_eq!(items_of(Some(vec![1, 2, 3]), None), vec![1, 2, 3]);
    assert_eq!(items_of(Some(vec![1, 2, 3]), Some(9)), vec![1, 2, 3]);
    assert_eq!(items_of(None, Some(9)), vec![9]);
    assert_eq!(items_of::<u8>(None, None), Vec::<u8>::new());
}

#[test]
fn flexible_string_of_text_number_and_other() {
    assert_eq!(parse_flexible_string(&json(r#""34-1""#)), "34-1");
    assert_eq!(parse_flexible_string(&json("34")), "34");
    assert_eq!(parse_flexible_string(&json("-5")), "-5");
    assert_eq!(parse_flexible_string(&json("null")), "UNKNOWN");
    assert_eq!(parse_flexible_string(&json("1.5")), "UNKNOWN");
    assert_eq!(parse_flexible_string(&json("true")), "UNKNOWN");
    assert_eq!(parse_flexible_string(&json(r#"{"a":1}"#)), "UNKNOWN");
    assert_eq!(parse_flexible_string(&json(r#""""#)), "");
}

#[test]
fn flexible_string_of_plain_values() {
    assert_eq!(flexible_string(Some("2-1".to_string()), Some(7)), "2-1");
    assert_eq!(flexible_string(None, Some(7)), "7");
    assert_eq!(flexible_string(None, Some(i64::MIN)), "-9223372036854775808");
    assert_eq!(flexible_string(None, None), "UNKNOWN");
}

#[test]
fn chars_of_text() {
    assert_eq!(to_chars("a평b"), vec!['a', '평', 'b']);
    assert_eq!(to_chars(""), Vec::<char>::new());
}

#[test]
fn contains_finds_substrings() {
    assert!(contains("34-1_WJB251000068.json", "34-1"));
    assert!(contains("34-1_WJB251000068.json", ".json"));
    assert!(contains("34-1_WJB251000068.json", "WJB"));
    assert!(contains("abc", "abc"));
    assert!(contains("abc", ""));
    assert!(contains("", ""));
    assert!(contains("aab", "ab"));
    assert!(contains("토요일", "일"));
}

#[test]
fn contains_rejects_what_is_not_there() {
    assert!(!contains("abc", "abcd"));
    assert!(!contains("abc", "ac"));
    assert!(!contains("", "a"));
    assert!(!contains("평일", "주말"));
    assert!(!contains("ababab", "abb"));
}

#[test]
fn same_text_compares_characters() {
    assert!(same_text("json", "json"));
    assert!(same_text("", ""));
    assert!(!same_text("json", "jso"));
    assert!(!same_text("json", "jsom"));
    assert!(!same_text("", "a"));
}

#[test]
fn starts_with_compares_prefixes() {
    assert!(starts_with("34-1(평일)", "34"));
    assert!(starts_with("34-1(평일)", "34-1(평일)"));
    assert!(starts_with("34-1", ""));
    assert!(!starts_with("34-1", "4"));
    assert!(!starts_with("34", "34-1"));
    assert!(!starts_with("", "3"));
}

#[test]
fn find_char_gives_first_position_or_length() {
    assert_eq!(find_char(&to_chars("34-1(평일)"), '('), 4);
    assert_eq!(find_char(&to_chars("a(b(c"), '('), 1);
    assert_eq!(find_char(&to_chars("34-1"), '('), 4);
    assert_eq!(find_char(&to_chars(""), '('), 0);
    assert_eq!(find_char(&to_chars("가나(다"), '('), 2);
}

#[test]
fn head_before_a_character() {
    assert_eq!(head_before("34-1(평일)", '('), "34-1");
    assert_eq!(head_before("34-1", '('), "34-1");
    assert_eq!(head_before("(평일)", '('), "");
    assert_eq!(head_before("원주역(a)(b)", '('), "원주역");
}

#[test]
fn strip_brackets_at_both_ends() {
    assert_eq!(strip_either("(평일)", '(', ')'), "평일");
    assert_eq!(strip_either("((평일))", '(', ')'), "평일");
    assert_eq!(strip_either("(토)(일)", '(', ')'), "토)(일");
    assert_eq!(strip_either("()", '(', ')'), "");
    assert_eq!(strip_either("평일", '(', ')'), "평일");
    assert_eq!(strip_either("", '(', ')'), "");
    assert_eq!(strip_either(")(", '(', ')'), "");
}

#[test]
fn strip_end_removes_trailing_characters() {
    assert_eq!(strip_end("원주역발", '발'), "원주역");
    assert_eq!(strip_end("원주역발발", '발'), "원주역");
    assert_eq!(strip_end("발전소", '발'), "발전소");
    assert_eq!(strip_end("발", '발'), "");
    assert_eq!(strip_end("", '발'), "");
    assert_eq!(strip_end("원주역", '발'), "원주역");
}

#[test]
fn pad2_pads_on_the_left() {
    assert_eq!(pad2("7"), "07");
    assert_eq!(pad2("07"), "07");
    assert_eq!(pad2("123"), "123");
    assert_eq!(pad2(""), "00");
    assert_eq!(pad2("가"), "0가");
}

#[test]
fn find_text_gives_first_position_or_length() {
    let list = vec!["b".to_string(), "a".to_string(), "b".to_string()];
    assert_eq!(find_text(&list, "b"), 0);
    assert_eq!(find_text(&list, "a"), 1);
    assert_eq!(find_text(&list, "c"), 3);
    assert_eq!(find_text(&vec![], "c"), 0);
}

#[test]
fn text_order_is_the_order_of_strings() {
    let samples = ["", "a", "ab", "b", "B", "원주역", "원주", "터미널", "34-1", "34", "é", "z"];
    for a in samples {
        for b in samples {
            assert_eq!(text_less(&to_chars(a), &to_chars(b)), a < b);
        }
    }
}

#[test]
fn insert_sorted_keeps_order_and_drops_repeats() {
    let mut list: Vec<String> = Vec::new();
    for s in ["터미널", "원주역", "시청", "원주역", "터미널", "강원대"] {
        insert_sorted(&mut list, s);
    }
    let mut expected = vec!["터미널", "원주역", "시청", "강원대"];
    expected.sort();
    assert_eq!(list, expected);
}
