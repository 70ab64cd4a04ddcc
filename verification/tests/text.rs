use breathe::json::{json_number, json_object1, json_object2, json_text, Json};
use breathe::text::{
    decimal_text, parse_u64, signed_text, split_full_lines, split_lines, split_pieces, split_words,
    trim, IntParseError,
};
use breathe::text_map::TextMap;

#[test]
fn numerals_go_both_ways() {
    for n in [0, 7, 10, 1_073_741_824, u64::MAX] {
        assert_eq!(decimal_text(n), n.to_string());
        assert_eq!(parse_u64(&n.to_string()), Ok(n));
    }
    assert_eq!(signed_text(i32::MIN), i32::MIN.to_string());
    assert_eq!(signed_text(12), "12");
}

#[test]
fn numerals_that_are_none_are_named() {
    assert_eq!(parse_u64(""), Err(IntParseError::Empty));
    assert_eq!(parse_u64("12x"), Err(IntParseError::InvalidDigit));
    assert_eq!(parse_u64("-1"), Err(IntParseError::InvalidDigit));
    assert_eq!(parse_u64("18446744073709551616"), Err(IntParseError::PosOverflow));
    assert_eq!(parse_u64("+5"), "+5".parse::<u64>().map_err(|_| IntParseError::Empty));
    for s in ["", "12x", "18446744073709551616", "+"] {
        assert_eq!(
            parse_u64(s).unwrap_err().message(),
            s.parse::<u64>().unwrap_err().to_string()
        );
    }
}

#[test]
fn texts_are_cut_as_the_standard_library_cuts_them() {
    for s in ["", " a  b\tc \n", "x", "\u{a0}é ", "a\r\nb\n\nc", "a\n", "::", "a:b:"] {
        assert_eq!(trim(s), s.trim());
        assert_eq!(split_words(s), s.split_whitespace().collect::<Vec<_>>());
        assert_eq!(split_pieces(s, ':'), s.split(':').collect::<Vec<_>>());
        assert_eq!(split_lines(s), s.lines().collect::<Vec<_>>());
        assert_eq!(split_full_lines(s), s.split_inclusive('\n').collect::<Vec<_>>());
    }
}

#[test]
fn a_text_map_keeps_the_last_value_of_a_key() {
    let mut m: TextMap<u64> = TextMap::new();
    assert_eq!(m.get("a"), None);
    assert_eq!(m.insert("a".into(), 1), None);
    assert_eq!(m.insert("b".into(), 2), None);
    assert_eq!(m.insert("a".into(), 3), Some(1));
    assert_eq!(m.get("a"), Some(3));
    assert_eq!(m.clone().get("b"), Some(2));
}

#[test]
fn values_are_rendered_as_serde_renders_them() {
    let j = json_object2(
        "a\"b",
        Json::Array(vec![json_number(5), Json::Null, Json::Bool(true)]),
        "c",
        json_text("line\nend\u{1}é"),
    );
    let text = j.render();
    assert_eq!(text, "{\"a\\\"b\":[5,null,true],\"c\":\"line\\nend\\u0001é\"}");
    let parsed: serde_json::Value = serde_json::from_str(&text).unwrap();
    assert_eq!(parsed.to_string(), text);
}

#[test]
fn pointers_reach_into_objects_and_arrays() {
    let j = json_object1("a/b", Json::Array(vec![json_text("x"), json_object1("~k", json_number(7))]));
    assert_eq!(j.pointer_str("/a~1b/0"), Some("x"));
    assert_eq!(j.pointer("/a~1b/1/~0k").and_then(Json::as_u64), Some(7));
    assert_eq!(j.pointer("/a~1b/01"), None);
    assert_eq!(j.pointer("/a~1b/2"), None);
    assert_eq!(j.pointer("a"), None);
    assert_eq!(j.pointer(""), Some(&j));
}

#[test]
fn a_text_is_escaped_as_a_json_string() {
    assert_eq!(
        json_text("a\"b\\c/\u{8}\t\n\u{c}\r\u{0}\u{1f}\u{7f}\u{e9}").render(),
        "\"a\\\"b\\\\c/\\b\\t\\n\\f\\r\\u0000\\u001f\u{7f}\u{e9}\""
    );
}
