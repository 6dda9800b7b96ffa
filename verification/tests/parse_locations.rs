//! The end-to-end location-tracking test: sources with nested objects,
//! arrays, numbers in scientific notation, unicode escapes and non-ASCII
//! text, each checked against exact line/column/position expectations and
//! against a reference JSON decoder.

use json_source_map::{parse, JsonValue, Location, Options};

fn to_serde(v: &JsonValue) -> serde_json::Value {
    match v {
        JsonValue::Null => serde_json::Value::Null,
        JsonValue::Bool(b) => serde_json::Value::Bool(*b),
        JsonValue::Number(s) => serde_json::Value::Number(s.parse().unwrap()),
        JsonValue::Str(s) => serde_json::Value::String(s.clone()),
        JsonValue::Array(items) => serde_json::Value::Array(items.iter().map(to_serde).collect()),
        JsonValue::Object(members) => {
            let mut m = serde_json::Map::new();
            for (k, v) in members {
                m.insert(k.clone(), to_serde(v));
            }
            serde_json::Value::Object(m)
        }
    }
}

fn is_object(v: &JsonValue) -> bool {
    matches!(v, JsonValue::Object(_))
}

#[test]
fn test_parse() {
    let source = r#"{
            "name": "John",
            "age": 30,
            "cars": [
                "Ford",
                "BMW",
                "Fiat"
            ]
        }"#;

    let res = parse(source, Options::default()).unwrap();
    assert!(is_object(&res.value));
    assert_eq!(
        res.get_location("/name").unwrap().key(),
        Location {
            line: 1,
            column: 12,
            pos: 14
        }
    );
    assert_eq!(
        res.get_location("/name").unwrap().key_end(),
        Location {
            line: 1,
            column: 18,
            pos: 20
        }
    );
    assert_eq!(
        to_serde(&res.value),
        serde_json::from_str::<serde_json::Value>(source).unwrap()
    );

    let source = r#"{
  "foo": "bar"
}"#;
    let res = parse(source, Options::default()).unwrap();
    assert!(is_object(&res.value));
    assert_eq!(
        res.get_location("").unwrap().value(),
        Location {
            line: 0,
            column: 0,
            pos: 0
        }
    );
    assert_eq!(
        res.get_location("").unwrap().value_end(),
        Location {
            line: 2,
            column: 1,
            pos: 18
        }
    );

    assert_eq!(
        res.get_location("/foo").unwrap().key(),
        Location {
            line: 1,
            column: 2,
            pos: 4
        }
    );
    assert_eq!(
        res.get_location("/foo").unwrap().key_end(),
        Location {
            line: 1,
            column: 7,
            pos: 9
        }
    );
    assert_eq!(
        res.get_location("/foo").unwrap().value(),
        Location {
            line: 1,
            column: 9,
            pos: 11
        }
    );
    assert_eq!(
        res.get_location("/foo").unwrap().value_end(),
        Location {
            line: 1,
            column: 14,
            pos: 16
        }
    );
    assert_eq!(
        to_serde(&res.value),
        serde_json::from_str::<serde_json::Value>(source).unwrap()
    );

    let source = r#"{
            "name": "John",
            "age": 30.0
        }"#;
    let res = parse(source, Options::default()).unwrap();
    assert!(is_object(&res.value));
    assert_eq!(
        res.get_location("/age").unwrap().value(),
        Location {
            line: 2,
            column: 19,
            pos: 49
        }
    );
    assert_eq!(
        res.get_location("/age").unwrap().value_end(),
        Location {
            line: 2,
            column: 23,
            pos: 53
        }
    );
    assert_eq!(
        to_serde(&res.value),
        serde_json::from_str::<serde_json::Value>(source).unwrap()
    );

    let source = r#"{"number":1.23e+10000}"#;
    let res = parse(source, Options::default()).unwrap();
    assert!(is_object(&res.value));
    assert_eq!(
        res.get_location("/number").unwrap().value(),
        Location {
            line: 0,
            column: 10,
            pos: 10
        }
    );
    assert_eq!(
        res.get_location("/number").unwrap().value_end(),
        Location {
            line: 0,
            column: 21,
            pos: 21
        }
    );

    let source = r#"{"number":-1.23e-10000}"#;
    let res = parse(source, Options::default()).unwrap();
    assert!(is_object(&res.value));
    assert_eq!(
        res.get_location("/number").unwrap().value(),
        Location {
            line: 0,
            column: 10,
            pos: 10
        }
    );
    assert_eq!(
        res.get_location("/number").unwrap().value_end(),
        Location {
            line: 0,
            column: 22,
            pos: 22
        }
    );

    let source = r#"{"number":-0.0}"#;
    let res = parse(source, Options::default()).unwrap();
    assert!(is_object(&res.value));
    assert_eq!(
        res.get_location("/number").unwrap().value(),
        Location {
            line: 0,
            column: 10,
            pos: 10
        }
    );
    assert_eq!(
        res.get_location("/number").unwrap().value_end(),
        Location {
            line: 0,
            column: 14,
            pos: 14
        }
    );
    assert_eq!(
        to_serde(&res.value),
        serde_json::from_str::<serde_json::Value>(source).unwrap()
    );

    let source = r#"{"code":"\u0020"}"#;
    let res = parse(source, Options::default()).unwrap();
    assert!(is_object(&res.value));
    assert_eq!(
        res.get_location("/code").unwrap().value(),
        Location {
            line: 0,
            column: 8,
            pos: 8
        }
    );
    assert_eq!(
        res.get_location("/code").unwrap().value_end(),
        Location {
            line: 0,
            column: 16,
            pos: 16
        }
    );
    assert_eq!(
        to_serde(&res.value),
        serde_json::from_str::<serde_json::Value>(source).unwrap()
    );

    let source = r#"{"chinese":"你好"}"#;
    let res = parse(source, Options::default()).unwrap();
    assert!(is_object(&res.value));
    assert_eq!(
        res.get_location("/chinese").unwrap().value(),
        Location {
            line: 0,
            column: 11,
            pos: 11
        }
    );
    assert_eq!(
        res.get_location("/chinese").unwrap().value_end(),
        Location {
            line: 0,
            column: 15,
            pos: 15
        }
    );
}
