//! Payload codec behavior: round trips, canonical text, and decode errors.

use hypergraphsql::{decode, encode, DecodeError, JsonValue};

fn obj(entries: Vec<(&str, JsonValue)>) -> JsonValue {
    JsonValue::Obj(entries.into_iter().map(|(k, v)| (k.to_string(), v)).collect())
}

fn s(text: &str) -> JsonValue {
    JsonValue::Str(text.to_string())
}

fn round_trips(v: JsonValue) {
    let text = encode(&v);
    let back = decode(&text).expect("decodable");
    assert_eq!(back, v);
}

#[test]
fn round_trip_scalars() {
    round_trips(JsonValue::Null);
    round_trips(JsonValue::Bool(true));
    round_trips(JsonValue::Bool(false));
    round_trips(JsonValue::Int(0));
    round_trips(JsonValue::Int(42));
    round_trips(JsonValue::Int(-1));
    round_trips(JsonValue::Int(i64::MAX));
    round_trips(JsonValue::Int(i64::MIN));
    round_trips(s(""));
    round_trips(s("hello"));
    round_trips(s("with \"quotes\" and \\backslash\\"));
    round_trips(s("path/with/slashes"));
    round_trips(s("line1\nline2\ttabbed\rreturn"));
    round_trips(s("low controls \u{1}\u{8}\u{c}\u{1f} end"));
    round_trips(s("beyond ascii \u{e9}\u{1f600}"));
}

#[test]
fn round_trip_nested() {
    round_trips(JsonValue::Arr(vec![]));
    round_trips(obj(vec![]));
    round_trips(JsonValue::Arr(vec![
        JsonValue::Int(1),
        s("two"),
        JsonValue::Null,
        JsonValue::Arr(vec![JsonValue::Bool(false)]),
    ]));
    round_trips(obj(vec![
        ("info", obj(vec![("name", s("a")), ("age", JsonValue::Int(30))])),
        ("tags", JsonValue::Arr(vec![s("x"), s("y")])),
    ]));
}

#[test]
fn encode_canonical_text() {
    let user = obj(vec![("info", obj(vec![("name", s("a"))]))]);
    assert_eq!(encode(&user), "{\"info\":{\"name\":\"a\"}}");
    assert_eq!(encode(&JsonValue::Int(-17)), "-17");
    assert_eq!(encode(&s("a\"b")), "\"a\\\"b\"");
    assert_eq!(encode(&JsonValue::Arr(vec![])), "[]");
}

#[test]
fn encode_escapes_control_characters() {
    assert_eq!(encode(&s("a\nb")), "\"a\\nb\"");
    assert_eq!(encode(&s("a\tb\rc")), "\"a\\tb\\rc\"");
    assert_eq!(encode(&s("a\u{1}b")), "\"a\\u0001b\"");
    assert_eq!(encode(&s("\u{1f}")), "\"\\u001f\"");
    assert_eq!(
        encode(&obj(vec![("k", s("line\nbreak"))])),
        "{\"k\":\"line\\nbreak\"}"
    );
}

#[test]
fn decode_accepts_whitespace() {
    let v = decode(" { \"a\" : [ 1 , 2 ] , \"b\" : null } ").expect("decodable");
    assert_eq!(
        v,
        obj(vec![
            ("a", JsonValue::Arr(vec![JsonValue::Int(1), JsonValue::Int(2)])),
            ("b", JsonValue::Null),
        ])
    );
}

#[test]
fn decode_escapes() {
    assert_eq!(decode("\"a\\n\\t\\r\\/b\"").unwrap(), s("a\n\t\r/b"));
    assert_eq!(decode("\"\\b\\f\"").unwrap(), s("\u{8}\u{c}"));
    assert_eq!(decode("\"\\u0041\\u00e9\\u001F\"").unwrap(), s("A\u{e9}\u{1f}"));
    assert_eq!(decode("\"\\uD800\""), Err(DecodeError::UnexpectedChar));
    assert_eq!(decode("\"\\u12G4\""), Err(DecodeError::UnexpectedChar));
    assert_eq!(decode("\"\\u12\""), Err(DecodeError::UnexpectedEnd));
    assert_eq!(decode("\"raw control \u{1} fails\""), Err(DecodeError::UnexpectedChar));
}

#[test]
fn decode_rejects_malformed_text() {
    assert_eq!(decode(""), Err(DecodeError::UnexpectedEnd));
    assert_eq!(decode("not json"), Err(DecodeError::UnexpectedChar));
    assert!(decode("{").is_err());
    assert!(decode("{\"a\":}").is_err());
    assert!(decode("[1,").is_err());
    assert!(decode("nul").is_err());
    assert!(decode("\"unterminated").is_err());
    assert_eq!(decode("1.5"), Err(DecodeError::TrailingText));
    assert_eq!(decode("1 2"), Err(DecodeError::TrailingText));
    assert_eq!(
        decode("9223372036854775808"),
        Err(DecodeError::NumberOutOfRange)
    );
    assert_eq!(decode("-9223372036854775809"), Err(DecodeError::NumberOutOfRange));
    assert_eq!(decode("9223372036854775807").unwrap(), JsonValue::Int(i64::MAX));
    assert_eq!(decode("-9223372036854775808").unwrap(), JsonValue::Int(i64::MIN));
}

#[test]
fn decode_rejects_runaway_nesting() {
    let mut text = String::new();
    for _ in 0..600 {
        text.push('[');
    }
    for _ in 0..600 {
        text.push(']');
    }
    assert_eq!(decode(&text), Err(DecodeError::TooDeep));
}

fn to_serde(v: &JsonValue) -> serde_json::Value {
    match v {
        JsonValue::Null => serde_json::Value::Null,
        JsonValue::Bool(b) => serde_json::Value::Bool(*b),
        JsonValue::Int(i) => serde_json::Value::Number(serde_json::Number::from(*i)),
        JsonValue::Str(t) => serde_json::Value::String(t.clone()),
        JsonValue::Arr(es) => serde_json::Value::Array(es.iter().map(to_serde).collect()),
        JsonValue::Obj(kvs) => serde_json::Value::Object(
            kvs.iter().map(|(k, x)| (k.clone(), to_serde(x))).collect(),
        ),
    }
}

#[test]
fn encoding_agrees_with_serde_json() {
    let v = obj(vec![
        ("name", s("a\"b\\c\nwith\u{1}controls")),
        ("n", JsonValue::Int(-42)),
        ("list", JsonValue::Arr(vec![JsonValue::Bool(true), JsonValue::Null])),
    ]);
    let ours = encode(&v);
    let parsed: serde_json::Value = serde_json::from_str(&ours).expect("valid JSON");
    assert_eq!(parsed, to_serde(&v));
}

#[test]
fn decoding_agrees_with_serde_json() {
    let text = "{\"a\":[1,true,null,\"x\\n\\u0009\"],\"b\":{\"c\":-7}}";
    let ours = decode(text).unwrap();
    assert_eq!(to_serde(&ours), serde_json::from_str::<serde_json::Value>(text).unwrap());
}
