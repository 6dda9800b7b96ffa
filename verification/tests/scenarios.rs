//! Scenario tests: the documented error positions, pointer escaping,
//! column accounting, primitive spans, idempotent re-parsing, and the
//! lenient corners of the number grammar.

use json_source_map::{parse, Error, JsonValue, Location, Options, Prop};

#[test]
fn lone_open_brace_is_unexpected_eof() {
    assert_eq!(parse("{", Options::default()).unwrap_err(), Error::UnexpectedEof);
}

#[test]
fn empty_input_is_unexpected_eof() {
    assert_eq!(parse("", Options::default()).unwrap_err(), Error::UnexpectedEof);
}

#[test]
fn unterminated_string_is_unexpected_eof() {
    assert_eq!(parse("\"abc", Options::default()).unwrap_err(), Error::UnexpectedEof);
}

#[test]
fn missing_member_value_is_unexpected_token() {
    // The dispatcher reports the cursor position after reading the token.
    assert_eq!(
        parse("{\"a\":}", Options::default()).unwrap_err(),
        Error::UnexpectedToken('}', 6)
    );
}

#[test]
fn bad_escape_is_unexpected_token_at_the_character() {
    assert_eq!(
        parse("\"\\q\"", Options::default()).unwrap_err(),
        Error::UnexpectedToken('q', 2)
    );
}

#[test]
fn bad_hex_digit_is_unexpected_token_at_first_non_hex() {
    assert_eq!(
        parse("\"\\uZZZZ\"", Options::default()).unwrap_err(),
        Error::UnexpectedToken('Z', 3)
    );
}

#[test]
fn lone_surrogate_is_invalid_code_point() {
    assert_eq!(
        parse("\"\\uD800\"", Options::default()).unwrap_err(),
        Error::InvalidUnicodeCodePoint(0xD800, 7)
    );
}

#[test]
fn trailing_content_is_unexpected_token() {
    assert_eq!(
        parse("1 2", Options::default()).unwrap_err(),
        Error::UnexpectedToken('2', 2)
    );
}

#[test]
fn bad_array_separator_is_unexpected_token() {
    assert_eq!(
        parse("[1;2]", Options::default()).unwrap_err(),
        Error::UnexpectedToken(';', 2)
    );
}

#[test]
fn bad_object_separator_is_unexpected_token() {
    assert_eq!(
        parse("{\"a\":1;}", Options::default()).unwrap_err(),
        Error::UnexpectedToken(';', 6)
    );
}

#[test]
fn missing_colon_is_unexpected_token() {
    assert_eq!(
        parse("{\"a\" 1}", Options::default()).unwrap_err(),
        Error::UnexpectedToken('1', 5)
    );
}

#[test]
fn non_string_key_is_unexpected_token() {
    assert_eq!(
        parse("{1:2}", Options::default()).unwrap_err(),
        Error::UnexpectedToken('1', 1)
    );
}

#[test]
fn bad_literal_tail_is_unexpected_token() {
    assert_eq!(
        parse("trux", Options::default()).unwrap_err(),
        Error::UnexpectedToken('x', 3)
    );
}

#[test]
fn hex_escape_accepts_both_letter_cases() {
    let res = parse("\"\\u00aF\"", Options::default()).unwrap();
    assert_eq!(res.value, JsonValue::Str("\u{00AF}".to_string()));
}

#[test]
fn array_member_positions() {
    let res = parse("[1,2,3]", Options::default()).unwrap();
    assert_eq!(res.get_location("/0").unwrap().value().pos, 1);
    assert_eq!(res.get_location("/2").unwrap().value().pos, 5);
    match &res.value {
        JsonValue::Array(items) => {
            assert_eq!(items.len(), 3);
            assert_eq!(items[0], JsonValue::Number("1".to_string()));
            assert_eq!(items[2], JsonValue::Number("3".to_string()));
        }
        other => panic!("expected an array, got {:?}", other),
    }
}

#[test]
fn object_member_positions() {
    let res = parse("{\"name\": \"John\", \"age\": 30}", Options::default()).unwrap();
    let name = res.get_location("/name").unwrap();
    assert_eq!(name.key(), Location { line: 0, column: 1, pos: 1 });
    assert_eq!(name.value(), Location { line: 0, column: 9, pos: 9 });
    let age = res.get_location("/age").unwrap();
    assert_eq!(age.value(), Location { line: 0, column: 24, pos: 24 });
    match &res.value {
        JsonValue::Object(members) => {
            assert_eq!(members[1].1, JsonValue::Number("30".to_string()));
        }
        other => panic!("expected an object, got {:?}", other),
    }
}

#[test]
fn non_ascii_positions_count_characters_not_bytes() {
    let res = parse("{\"chinese\":\"你好\"}", Options::default()).unwrap();
    let loc = res.get_location("/chinese").unwrap();
    assert_eq!(loc.value().pos, 11);
    assert_eq!(loc.value_end().pos, 15);
}

#[test]
fn root_has_value_but_no_key() {
    let res = parse(" 42 ", Options::default()).unwrap();
    let root = res.get_location("").unwrap();
    assert_eq!(root.get(Prop::Value), Some(Location { line: 0, column: 1, pos: 1 }));
    assert_eq!(root.get(Prop::ValueEnd), Some(Location { line: 0, column: 3, pos: 3 }));
    assert_eq!(root.get(Prop::Key), None);
    assert_eq!(root.get(Prop::KeyEnd), None);
}

#[test]
fn member_has_all_four_roles_element_only_two() {
    let res = parse("{\"a\":[true]}", Options::default()).unwrap();
    let member = res.get_location("/a").unwrap();
    assert!(member.get(Prop::Key).is_some());
    assert!(member.get(Prop::KeyEnd).is_some());
    assert!(member.get(Prop::Value).is_some());
    assert!(member.get(Prop::ValueEnd).is_some());
    let element = res.get_location("/a/0").unwrap();
    assert!(element.get(Prop::Key).is_none());
    assert!(element.get(Prop::KeyEnd).is_none());
    assert!(element.get(Prop::Value).is_some());
    assert!(element.get(Prop::ValueEnd).is_some());
}

#[test]
fn pointer_escaping_round_trips() {
    let res = parse("{\"a/b~c\":1}", Options::default()).unwrap();
    let member = res.get_location("/a~1b~0c").unwrap();
    assert_eq!(member.key(), Location { line: 0, column: 1, pos: 1 });
    // Unescaping per RFC 6901 (`~1` then `~0`) reconstructs the key.
    let segment = "a~1b~0c";
    let unescaped = segment.replace("~1", "/").replace("~0", "~");
    assert_eq!(unescaped, "a/b~c");
}

#[test]
fn column_accounting_rules() {
    // One tab advances the column by 4, a space by 1, a line feed resets
    // the column and bumps the line, a carriage return only resets.
    let res = parse("\t 1", Options::default()).unwrap();
    assert_eq!(res.get_location("").unwrap().value(), Location { line: 0, column: 5, pos: 2 });

    let res = parse("\n\t1", Options::default()).unwrap();
    assert_eq!(res.get_location("").unwrap().value(), Location { line: 1, column: 4, pos: 2 });

    let res = parse(" \r1", Options::default()).unwrap();
    assert_eq!(res.get_location("").unwrap().value(), Location { line: 0, column: 0, pos: 2 });
}

#[test]
fn primitive_span_covers_the_token() {
    let res = parse("  true ", Options::default()).unwrap();
    let root = res.get_location("").unwrap();
    assert_eq!(root.value_end().pos - root.value().pos, "true".len());

    let res = parse("{\"n\": 12.5e2}", Options::default()).unwrap();
    let n = res.get_location("/n").unwrap();
    assert_eq!(n.value_end().pos - n.value().pos, "12.5e2".len());
    match &res.value {
        JsonValue::Object(members) => {
            assert_eq!(members[0].1, JsonValue::Number("12.5e2".to_string()));
        }
        other => panic!("expected an object, got {:?}", other),
    }
}

#[test]
fn reparsing_is_byte_for_byte_identical() {
    let source = "{\"a\": [1, {\"b\": null}], \"c\": \"x\\ty\"}";
    let r1 = parse(source, Options::default()).unwrap();
    let r2 = parse(source, Options::default()).unwrap();
    assert_eq!(r1.value, r2.value);
    assert_eq!(r1.pointers, r2.pointers);
}

#[test]
fn duplicate_keys_last_write_wins() {
    let res = parse("{\"a\":1,\"a\":2}", Options::default()).unwrap();
    match &res.value {
        JsonValue::Object(members) => {
            assert_eq!(members.len(), 1);
            assert_eq!(members[0].0, "a");
            assert_eq!(members[0].1, JsonValue::Number("2".to_string()));
        }
        other => panic!("expected an object, got {:?}", other),
    }
}

#[test]
fn empty_containers() {
    let res = parse("[]", Options::default()).unwrap();
    assert_eq!(res.value, JsonValue::Array(Vec::new()));
    let res = parse("{}", Options::default()).unwrap();
    assert_eq!(res.value, JsonValue::Object(Vec::new()));
}

#[test]
fn literals_and_escapes_decode() {
    let res = parse("[null, false, \"a\\nb\\u0041\\\\\"]", Options::default()).unwrap();
    match &res.value {
        JsonValue::Array(items) => {
            assert_eq!(items[0], JsonValue::Null);
            assert_eq!(items[1], JsonValue::Bool(false));
            assert_eq!(items[2], JsonValue::Str("a\nbA\\".to_string()));
        }
        other => panic!("expected an array, got {:?}", other),
    }
}

#[test]
fn control_escapes_decode_to_control_characters() {
    let res = parse("\"a\\bb\\fc\\rd\\te\"", Options::default()).unwrap();
    assert_eq!(
        res.value,
        JsonValue::Str("a\u{0008}b\u{000C}c\rd\te".to_string())
    );
}

#[test]
fn lenient_number_grammar_is_preserved() {
    // Digit runs after `.` and `e` may be empty; the literal text is kept
    // verbatim either way.
    let res = parse("[1., 1e]", Options::default()).unwrap();
    match &res.value {
        JsonValue::Array(items) => {
            assert_eq!(items[0], JsonValue::Number("1.".to_string()));
            assert_eq!(items[1], JsonValue::Number("1e".to_string()));
        }
        other => panic!("expected an array, got {:?}", other),
    }
}

#[test]
fn bigint_option_does_not_change_positions() {
    let src = "{\"n\": 12345678901234567890}";
    let strict = parse(src, Options { bigint: false }).unwrap();
    let big = parse(src, Options { bigint: true }).unwrap();
    assert_eq!(strict.value, big.value);
    assert_eq!(strict.pointers, big.pointers);
    match &big.value {
        JsonValue::Object(members) => {
            assert_eq!(members[0].1, JsonValue::Number("12345678901234567890".to_string()));
        }
        other => panic!("expected an object, got {:?}", other),
    }
}

#[test]
fn missing_pointer_is_absent() {
    let res = parse("{\"a\":1}", Options::default()).unwrap();
    assert!(res.get_location("/b").is_none());
    assert!(res.get_location("/a").is_some());
}
