use agentsight_analysis::bytes::{body_string, read_be, ssl_json_string_to_bytes};
use agentsight_analysis::json::{parse_json, pretty_json, JsonValue};
use agentsight_analysis::json_scan::{
    extract_json_object_after_key, extract_json_string_field, find_raw_field,
};
use agentsight_analysis::text;

fn chars(s: &str) -> Vec<char> {
    text::chars(s)
}

fn pieces(s: &str, sep: &str) -> Vec<String> {
    let all = chars(s);
    text::pieces(&all, sep).into_iter().map(text::string).collect()
}

#[test]
fn whitespace_is_that_of_unicode() {
    for c in '\u{0}'..=char::MAX {
        assert_eq!(text::whitespace(c), c.is_whitespace(), "{c:?}");
    }
}

#[test]
fn texts_are_searched() {
    let all = chars("one two one");
    assert_eq!(text::position(&all, "one"), Some(0));
    assert_eq!(text::position(&all, "two"), Some(4));
    assert_eq!(text::position(&all, "three"), None);
    assert_eq!(text::position(&all, ""), Some(0));
    assert!(text::begins(&all, "one "));
    assert!(!text::begins(&all, "ne"));
    assert!(text::ends(&all, " one"));
    assert!(!text::ends(&all, "one two one two"));
    assert!(text::has(&all, "e t"));
}

#[test]
fn pieces_are_those_of_split() {
    for s in ["", "a", "a\r\nb", "\r\n", "a\r\r\nb\r\n\r\n", "\n\r\n"] {
        let expected: Vec<&str> = s.split("\r\n").collect();
        assert_eq!(pieces(s, "\r\n"), expected);
    }
    let all = chars("a--b----c");
    let cut = text::pieces(&all, "--");
    assert_eq!(text::joined(&cut, "--"), "a--b----c");
    assert_eq!(text::joined(&cut, "+"), "a+b++c");
}

#[test]
fn texts_are_trimmed() {
    for s in ["", " ", "\u{3000}a b\u{85}", "a", "\t\r\na"] {
        let all = chars(s);
        assert_eq!(text::string(text::trimmed(&all)), s.trim());
        assert_eq!(text::string(text::trimmed_start(&all)), s.trim_start());
        assert_eq!(text::blank(&all), s.trim().is_empty());
    }
}

#[test]
fn case_is_that_of_ascii() {
    let all = chars("aZé\u{212a}9");
    assert_eq!(text::string(&text::lower(&all)), "azé\u{212a}9");
    assert_eq!(text::string(&text::upper(&all)), "AZé\u{212a}9");
    assert!(text::same_ignoring_case("WebSocket", "websocket"));
    assert!(!text::same_ignoring_case("\u{212a}", "k"));
    assert!(!text::same_ignoring_case("a", "ab"));
    assert!(text::same("a", "a"));
    assert!(!text::same("a", "A"));
}

#[test]
fn numbers_are_those_of_parse() {
    for s in ["0", "007", "+5", "-5", "+", "", " 1", "1_0", "65535", "65536", "99999999999999999999"] {
        let all = chars(s);
        assert_eq!(text::number(&all, u16::MAX as u64), s.parse::<u16>().ok().map(u64::from));
        assert_eq!(text::number(&all, u64::MAX), s.parse::<u64>().ok());
    }
    for n in [0, 9, 10, 1234567890, u64::MAX] {
        assert_eq!(text::digits(n), n.to_string());
    }
    assert_eq!(text::read_chunk_size(&chars("fF")), Some(255));
    assert_eq!(text::byte_len("aé\u{2020}\u{1f600}"), 10);
    assert_eq!(text::string(text::after_first(&chars("abc"), 2)), "c");
    assert_eq!(text::string(text::after_first(&chars("abc"), 4)), "");
}

#[test]
fn texts_grow_and_are_copied() {
    let mut s = text::owned("aé");
    text::push_str(&mut s, "\u{2020}");
    assert_eq!(s, "aé\u{2020}");
    assert_eq!(text::copy(&Some(s.clone())), Some(s));
    assert_eq!(text::copy(&None), None);
}

#[test]
fn captured_texts_give_their_bytes_back() {
    let all: Vec<u8> = (0..=255).collect();
    let captured: String = all.iter().map(|b| char::from(*b)).collect();
    assert_eq!(ssl_json_string_to_bytes(&captured), all);
    assert_eq!(ssl_json_string_to_bytes("ÿ\u{100}"), vec![0xff, 0xc4, 0x80]);
    assert_eq!(body_string(b""), None);
    assert_eq!(body_string("é".as_bytes()).as_deref(), Some("é"));
    assert_eq!(body_string(b"a\xff").as_deref(), Some("a\u{fffd}"));
}

#[test]
fn big_endian_numbers_are_read() {
    assert_eq!(read_be(&[9, 1, 2, 3, 9], 1, 3), 0x010203);
    assert_eq!(read_be(&[0xff; 8], 0, 8), u64::MAX);
    assert_eq!(read_be(&[], 0, 0), 0);
}

#[test]
fn objects_are_found_after_a_key() {
    let found = |s: &str| {
        let all = chars(s);
        extract_json_object_after_key(&all, "\"k\"").map(text::string)
    };
    assert_eq!(found(r#"x "k": {"a": {"b": "}\"{"}} y"#).as_deref(), Some(r#"{"a": {"b": "}\"{"}}"#));
    assert_eq!(found(r#"{"k" then {}"#).as_deref(), Some("{}"));
    assert_eq!(found(r#""k": {"a": {}"#), None);
    assert_eq!(found(r#""k": 1"#), None);
    assert_eq!(found(r#"{}"#), None);
}

#[test]
fn string_fields_are_found() {
    let raw = |s: &str| find_raw_field(&chars(s), "k").map(text::string);
    assert_eq!(raw(r#"{"k" :  "a\"b" }"#).as_deref(), Some(r#"a\"b"#));
    assert_eq!(raw(r#"{"k": 5}"#), None);
    assert_eq!(raw(r#"{"k": "a"#), None);
    assert_eq!(raw(r#"{"k""#), None);
    assert_eq!(raw(r#"{"k": "#), None);
    let field = |s: &str| extract_json_string_field(&chars(s), "k");
    assert_eq!(field(r#"{"k": "a\"é"}"#).as_deref(), Some("a\"é"));
    assert_eq!(field(r#"{"k": "\q"}"#), None);
}

#[test]
fn json_is_read_and_written() {
    let value = parse_json(r#"{"b": [null, true, 1, -2, 1.5e3, "s"], "a": {}}"#).unwrap();
    let list = value.get_array("b").unwrap();
    assert!(list[0].is_null());
    assert_eq!(list[1].as_bool(), Some(true));
    assert_eq!(list[2].as_u64(), Some(1));
    assert_eq!(list[3], JsonValue::Negative(-2));
    assert_eq!(list[3].as_u64(), None);
    assert_eq!(list[4], JsonValue::Float("1500.0".to_string()));
    assert_eq!(list[5].as_str(), Some("s"));
    assert_eq!(value.get_object("a").map(|o| o.len()), Some(0));
    assert_eq!(value.get("c"), None);
    assert_eq!(list[5].get("c"), None);
    assert_eq!(
        pretty_json(&value).as_deref(),
        Some("{\n  \"a\": {},\n  \"b\": [\n    null,\n    true,\n    1,\n    -2,\n    1500.0,\n    \"s\"\n  ]\n}")
    );
    assert_eq!(parse_json("{"), None);
    assert_eq!(value.clone(), value);
}
