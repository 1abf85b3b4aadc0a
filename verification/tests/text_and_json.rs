use responses_to_chat::codec::{display, export, import, parse, serialize};
use responses_to_chat::json::{find_field, Json};
use responses_to_chat::ordered::TextMap;
use responses_to_chat::text::{
    ascii_lowercase, characters, decimal_text, is_white_space, join, precedes, push_nonempty,
    same_text, trim,
};

const SAMPLES: [&str; 14] = [
    "",
    "a",
    "A",
    "ab",
    "aB",
    "  padded\t",
    "\u{a0}no-break\u{3000}",
    "inner space kept",
    "\n\r\u{b}\u{c}",
    "ÄÖÜ stay",
    "Mixed CASE 123 _-",
    "\u{1f600}",
    "\u{85}next line\u{2028}",
    "z",
];

#[test]
fn white_space_is_that_of_char() {
    for code in 0..=0x10ffffu32 {
        if let Some(c) = char::from_u32(code) {
            assert_eq!(is_white_space(c), c.is_whitespace(), "{:#x}", code);
        }
    }
}

#[test]
fn trim_is_that_of_str() {
    for text in SAMPLES {
        assert_eq!(trim(text), text.trim());
    }
}

#[test]
fn trimming_twice_changes_nothing() {
    for text in SAMPLES {
        assert_eq!(trim(&trim(text)), trim(text));
    }
}

#[test]
fn lowercase_is_that_of_str() {
    for text in SAMPLES {
        assert_eq!(ascii_lowercase(text), text.to_ascii_lowercase());
    }
}

#[test]
fn order_is_that_of_str() {
    for a in SAMPLES {
        for b in SAMPLES {
            assert_eq!(precedes(a, b), a < b, "{:?} {:?}", a, b);
            assert_eq!(same_text(a, b), a == b, "{:?} {:?}", a, b);
        }
    }
}

#[test]
fn characters_are_those_of_str() {
    for text in SAMPLES {
        assert_eq!(characters(text), text.chars().collect::<Vec<char>>());
    }
}

#[test]
fn numbers_are_written_in_decimal() {
    for value in [0usize, 7, 10, 99, 100, 1234567890, usize::MAX] {
        assert_eq!(decimal_text(value), format!("{}", value));
    }
}

#[test]
fn join_puts_the_separator_between() {
    assert_eq!(join(&vec![], ", "), "");
    assert_eq!(join(&vec!["a".to_string()], ", "), "a");
    assert_eq!(
        join(&vec!["a".to_string(), "".to_string(), "c".to_string()], ", "),
        "a, , c"
    );
}

#[test]
fn empty_parts_are_not_pushed() {
    let mut parts = vec![];
    push_nonempty(&mut parts, &"a".to_string());
    push_nonempty(&mut parts, &String::new());
    push_nonempty(&mut parts, &"b".to_string());
    assert_eq!(parts, vec!["a".to_string(), "b".to_string()]);
}

#[test]
fn text_map_replaces_and_stays_in_order() {
    let mut map = TextMap::new();
    assert_eq!(map.insert("b".to_string(), 1), None);
    assert_eq!(map.insert("a".to_string(), 2), None);
    assert_eq!(map.insert("c".to_string(), 3), None);
    assert_eq!(map.insert("b".to_string(), 4), Some(1));
    assert_eq!(map.len(), 3);
    assert_eq!(map.get("b"), Some(&4));
    assert_eq!(map.get("d"), None);
    assert_eq!(map.entry(0), &("a".to_string(), 2));
    assert_eq!(map.entry(1), &("b".to_string(), 4));
    assert_eq!(map.entry(2), &("c".to_string(), 3));
    assert_eq!(map.clone(), map);
}

#[test]
fn object_sorts_keys_and_the_later_field_counts() {
    let json = Json::object(vec![
        ("b".to_string(), Json::Bool(true)),
        ("a".to_string(), Json::Null),
        ("b".to_string(), Json::Bool(false)),
    ]);
    assert_eq!(
        json,
        Json::Object(vec![
            ("a".to_string(), Json::Null),
            ("b".to_string(), Json::Bool(false)),
        ])
    );
}

#[test]
fn parse_reads_every_kind_of_value() {
    let parsed =
        parse(r#" {"z": [null, true, -1, 2.5, "text"], "a": {"k": {}}} "#).expect("valid JSON");
    assert_eq!(
        parsed,
        Json::object(vec![
            (
                "z".to_string(),
                Json::Array(vec![
                    Json::Null,
                    Json::Bool(true),
                    Json::Number(serde_json::Number::from(-1)),
                    Json::Number(serde_json::Number::from_f64(2.5).unwrap()),
                    Json::Text("text".to_string()),
                ])
            ),
            (
                "a".to_string(),
                Json::object(vec![("k".to_string(), Json::object(vec![]))])
            ),
        ])
    );
}

#[test]
fn parse_gives_the_words_of_the_error() {
    for raw in ["", "{", "{\"a\":}", "nul", "[1,]", "1 2"] {
        let words = parse(raw).expect_err("invalid JSON");
        let expected = serde_json::from_str::<serde_json::Value>(raw).expect_err("invalid JSON");
        assert_eq!(words, expected.to_string());
    }
    assert_eq!(
        parse("").expect_err("invalid JSON"),
        "EOF while parsing a value at line 1 column 0"
    );
}

#[test]
fn of_two_fields_with_one_key_parse_keeps_the_later() {
    let parsed = parse(r#"{"a": 1, "a": 2}"#).expect("valid JSON");
    match parsed {
        Json::Object(entries) => {
            assert_eq!(entries.len(), 1);
            assert_eq!(
                find_field(&entries, "a"),
                Some(&Json::Number(serde_json::Number::from(2)))
            );
            assert_eq!(find_field(&entries, "b"), None);
        }
        other => panic!("unexpected {:?}", other),
    }
}

#[test]
fn import_and_export_undo_each_other() {
    let raw = r#"{"b":[1,2.5,"x\ny",null,{"c":false}],"a":{}}"#;
    let value: serde_json::Value = serde_json::from_str(raw).expect("valid JSON");
    assert_eq!(export(&import(value.clone())), value);
    let json = import(value.clone());
    assert_eq!(import(export(&json)), json);
    assert_eq!(json.clone(), json);
}

#[test]
fn display_and_serialize_write_compact_text() {
    let json = parse(r#"{ "b" : [ 1, "x\ny" ], "a" : null }"#).expect("valid JSON");
    let expected = r#"{"a":null,"b":[1,"x\ny"]}"#;
    assert_eq!(display(&json), expected);
    assert_eq!(serialize(&json), Ok(expected.to_string()));
    assert_eq!(display(&json), export(&json).to_string());
    assert_eq!(display(&Json::Text("q\"".to_string())), "\"q\\\"\"");
}

#[test]
fn entries_with_one_key_twice_are_written_once() {
    let json = Json::Object(vec![
        ("a".to_string(), Json::Bool(true)),
        ("a".to_string(), Json::Bool(false)),
    ]);
    assert_eq!(serialize(&json), Ok(r#"{"a":false}"#.to_string()));
}

#[test]
fn a_displayed_value_is_never_empty() {
    for raw in ["null", "false", "0", "-0.0", "\"\"", "[]", "{}"] {
        assert_eq!(display(&parse(raw).expect("valid JSON")), raw);
    }
}
