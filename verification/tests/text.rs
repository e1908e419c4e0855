use dsh_desktop::json::{object_text, JsonValue};
use dsh_desktop::string_map::StringMap;
use dsh_desktop::text::{
    decimal_text, first_word_text, join_texts, parse_u32, same_ignoring_case, split_text,
    text_after, text_before, trim_end_text, trim_text, zero_filled_text,
};

#[test]
fn numbers_are_parsed() {
    assert_eq!(parse_u32("0"), Some(0));
    assert_eq!(parse_u32("4294967295"), Some(u32::MAX));
    assert_eq!(parse_u32("4294967296"), None);
    assert_eq!(parse_u32("+7"), Some(7));
    assert_eq!(parse_u32("007"), Some(7));
    for bad in ["", "+", "-1", "1a", " 1", "1_0"] {
        assert_eq!(parse_u32(bad), None, "{bad}");
        assert_eq!(bad.parse::<u32>().ok(), None);
    }
}

#[test]
fn numbers_are_written() {
    assert_eq!(decimal_text(0), "0");
    assert_eq!(decimal_text(u64::MAX), "18446744073709551615");
    assert_eq!(zero_filled_text("7", 3), "007");
    assert_eq!(zero_filled_text("1234", 3), "1234");
}

#[test]
fn texts_are_cut() {
    assert_eq!(trim_text("\u{3000} a b \t"), "a b");
    assert_eq!(trim_end_text(" a\r\n"), " a");
    assert_eq!(first_word_text("  12 34"), "12");
    assert_eq!(first_word_text(" \n"), "");
    assert_eq!(split_text("a&&b", '&'), vec!["a", "", "b"]);
    assert_eq!(split_text("", '&'), vec![""]);
    assert_eq!(join_texts(&vec!["a".to_string(), "b".to_string()], ", "), "a, b");
    assert_eq!(text_before("k=v=w", '='), "k");
    assert_eq!(text_after("k=v=w", '='), "v=w");
    assert!(same_ignoring_case("Set-Cookie", "set-cookie"));
    assert!(!same_ignoring_case("set-cookie", "set_cookie"));
}

#[test]
fn maps_keep_the_last_value_of_a_key() {
    let mut m = StringMap::new();
    m.insert("a".to_string(), "1".to_string());
    m.insert("b".to_string(), "2".to_string());
    m.insert("a".to_string(), "3".to_string());
    assert_eq!(m.len(), 2);
    assert_eq!(m.get("a").as_deref(), Some("3"));
    assert!(m.get("c").is_none());
}

#[test]
fn objects_are_written() {
    assert_eq!(object_text(&Vec::new()), "{}");
    assert_eq!(
        object_text(&vec![
            ("a\"".to_string(), JsonValue::Text("x\ny".to_string())),
            ("b".to_string(), JsonValue::Truth(false)),
            ("c".to_string(), JsonValue::Number(7)),
        ]),
        "{\"a\\\"\":\"x\\ny\",\"b\":false,\"c\":7}"
    );
}
