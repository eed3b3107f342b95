use omp_desktop::json::{as_array, as_bool, as_i64, as_str, as_u64, get, JsonNumber, JsonValue};
use omp_desktop::order::str_le;
use omp_desktop::paths::{components_of, file_name, is_absolute, split_char, starts_with_path};
use omp_desktop::text::{
    contains, decimal, eq_ignore_ascii_case, find_char, is_blank, join, join_from, lines, parse_u64,
    signed_decimal, split_once, starts_with, str_eq, strip_prefix, strip_suffix, trim_str,
};

#[test]
fn text_is_trimmed_split_and_compared_as_std_does() {
    assert_eq!(trim_str("  a b \n"), "a b");
    assert!(is_blank(" \t\n"));
    assert!(!is_blank(" x "));
    assert!(starts_with("Allow tool: bash", "Allow tool: "));
    assert_eq!(strip_prefix("__advisor.x", "__advisor."), Some("x"));
    assert_eq!(strip_suffix("a.jsonl", ".jsonl"), Some("a"));
    assert_eq!(strip_suffix("a.json", ".jsonl"), None);
    assert!(contains("Scout.jsonl.bak", ".bak"));
    assert_eq!(find_char("a:b:c", ':'), Some(1));
    assert_eq!(split_once("a:b:c", ':'), Some(("a", "b:c")));
    assert!(eq_ignore_ascii_case("HTTPS", "https"));
    assert!(!eq_ignore_ascii_case("https", "http"));
    assert!(str_eq("same", "same"));
    assert!(!str_eq("same", "Same"));
}

#[test]
fn numbers_are_read_and_written_in_decimal() {
    assert_eq!(parse_u64("42"), Some(42));
    assert_eq!(parse_u64("+7"), Some(7));
    assert_eq!(parse_u64("18446744073709551615"), Some(u64::MAX));
    assert_eq!(parse_u64("18446744073709551616"), None);
    assert_eq!(parse_u64(""), None);
    assert_eq!(parse_u64("-1"), None);
    assert_eq!(parse_u64("1e3"), None);
    assert_eq!(decimal(0), "0");
    assert_eq!(decimal(1288), "1288");
    assert_eq!(signed_decimal(-143), "-143");
    assert_eq!(signed_decimal(i64::MIN), "-9223372036854775808");
}

#[test]
fn lines_end_at_newlines_and_drop_a_carriage_return() {
    assert_eq!(lines("a\r\nb\n\nc"), ["a", "b", "", "c"]);
    assert_eq!(lines("a\n"), ["a"]);
    assert!(lines("").is_empty());
    assert_eq!(join_from(&vec!["x".to_string(), "y".to_string(), "z".to_string()], 1, " / "), "y / z");
    assert_eq!(join("/a", "b"), "/a/b");
    assert_eq!(join("/a/", "b"), "/a/b");
}

#[test]
fn paths_compare_by_components() {
    assert_eq!(split_char("a/b//c", '/'), ["a", "b", "", "c"]);
    assert_eq!(components_of("/work//app/"), ["/", "work", "app"]);
    assert!(starts_with_path("/work/app/src", "/work/app"));
    assert!(!starts_with_path("/work/apple", "/work/app"));
    assert!(is_absolute("/x"));
    assert!(!is_absolute("x"));
    assert_eq!(file_name("/work/app.jsonl").as_deref(), Some("app.jsonl"));
    assert_eq!(file_name("/"), None);
}

#[test]
fn strings_order_by_code_point() {
    assert!(str_le("a", "b"));
    assert!(str_le("a", "ab"));
    assert!(str_le("B", "a"));
    assert!(!str_le("b", "a"));
    assert!(str_le("same", "same"));
}

#[test]
fn json_fields_are_read_as_serde_json_reads_them() {
    let n = |v: u64| {
        JsonValue::Number(JsonNumber {
            as_u64: Some(v),
            as_i64: Some(v as i64),
            whole: Some(v),
        })
    };
    let raw = JsonValue::Object(vec![
        ("name".to_string(), JsonValue::Text("vite".to_string())),
        ("name".to_string(), JsonValue::Text("shadowed".to_string())),
        ("ok".to_string(), JsonValue::Bool(true)),
        ("size".to_string(), n(7)),
        ("list".to_string(), JsonValue::List(vec![JsonValue::Null])),
    ]);
    assert_eq!(as_str(get(&raw, "name")), Some("vite"), "the first field of a name wins");
    assert_eq!(as_bool(get(&raw, "ok")), Some(true));
    assert_eq!(as_u64(get(&raw, "size")), Some(7));
    assert_eq!(as_i64(get(&raw, "size")), Some(7));
    assert_eq!(as_array(get(&raw, "list")).map(|v| v.len()), Some(1));
    assert_eq!(as_str(get(&raw, "ok")), None);
    assert_eq!(get(&JsonValue::Null, "name"), None);
}
