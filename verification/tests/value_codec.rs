use marciemoo::codec::decode_value;
use marciemoo::codec::encode_value;
use marciemoo::value::Value;

fn round_trips(v: Value) {
    let text = encode_value(&v);
    assert_eq!(decode_value(text.as_str()), Some(v));
}

#[test]
fn round_trip_zero() {
    round_trips(Value::Integer(0));
}

#[test]
fn round_trip_negative() {
    round_trips(Value::Integer(-1));
    round_trips(Value::Integer(-42));
}

#[test]
fn round_trip_extremes() {
    round_trips(Value::Integer(i64::MAX));
    round_trips(Value::Integer(i64::MIN));
}

#[test]
fn round_trip_empty_string() {
    round_trips(Value::String(String::new()));
}

#[test]
fn round_trip_quotes_and_backslashes() {
    round_trips(Value::String("she said \"hi\"".to_string()));
    round_trips(Value::String("a\\b\\\\c".to_string()));
}

#[test]
fn round_trip_control_characters() {
    round_trips(Value::String("tab\tnewline\nreturn\rbell\u{7}".to_string()));
    round_trips(Value::String("\u{0}\u{1}\u{1f}".to_string()));
}

#[test]
fn round_trip_unicode_text() {
    round_trips(Value::String("mötley crüe 🐄".to_string()));
}

#[test]
fn round_trip_bools() {
    round_trips(Value::Bool(true));
    round_trips(Value::Bool(false));
}

fn reference_encoding(tag: &str, v: serde_json::Value) -> String {
    let mut m = serde_json::Map::new();
    m.insert(tag.to_string(), v);
    serde_json::to_string(&serde_json::Value::Object(m)).unwrap()
}

#[test]
fn encoding_matches_reference_integer() {
    assert_eq!(
        encode_value(&Value::Integer(42)),
        reference_encoding("Integer", serde_json::Value::from(42i64))
    );
    assert_eq!(
        encode_value(&Value::Integer(-7)),
        reference_encoding("Integer", serde_json::Value::from(-7i64))
    );
    assert_eq!(
        encode_value(&Value::Integer(i64::MIN)),
        reference_encoding("Integer", serde_json::Value::from(i64::MIN))
    );
}

#[test]
fn encoding_matches_reference_bool() {
    assert_eq!(
        encode_value(&Value::Bool(true)),
        reference_encoding("Bool", serde_json::Value::from(true))
    );
    assert_eq!(
        encode_value(&Value::Bool(false)),
        reference_encoding("Bool", serde_json::Value::from(false))
    );
}

#[test]
fn encoding_matches_reference_string_escapes() {
    let tricky = "plain \"quoted\" back\\slash\nnew\tline \u{8}\u{c}\r ctl\u{1}\u{1f} ok";
    assert_eq!(
        encode_value(&Value::String(tricky.to_string())),
        reference_encoding("String", serde_json::Value::from(tricky))
    );
}

#[test]
fn reference_decodes_our_encoding() {
    let v = encode_value(&Value::String("a \"b\" \u{3}".to_string()));
    let parsed: serde_json::Value = serde_json::from_str(v.as_str()).unwrap();
    assert_eq!(parsed["String"], serde_json::Value::from("a \"b\" \u{3}"));
}

#[test]
fn decode_accepts_reference_output() {
    let text = reference_encoding("String", serde_json::Value::from("Clarabelle\n\"moo\""));
    assert_eq!(
        decode_value(text.as_str()),
        Some(Value::String("Clarabelle\n\"moo\"".to_string()))
    );
}

#[test]
fn decode_rejects_garbage() {
    assert_eq!(decode_value(""), None);
    assert_eq!(decode_value("{}"), None);
    assert_eq!(decode_value("{\"Integer\":}"), None);
    assert_eq!(decode_value("{\"Integer\":01}"), None);
    assert_eq!(decode_value("{\"Integer\":-0}"), None);
    assert_eq!(decode_value("{\"Integer\":9223372036854775808}"), None);
    assert_eq!(decode_value("{\"Bool\":maybe}"), None);
    assert_eq!(decode_value("{\"String\":\"unterminated}"), None);
    assert_eq!(decode_value("{\"String\":\"bad\\escape\"}"), None);
}

#[test]
fn decode_accepts_boundary_integers() {
    assert_eq!(
        decode_value("{\"Integer\":9223372036854775807}"),
        Some(Value::Integer(i64::MAX))
    );
    assert_eq!(
        decode_value("{\"Integer\":-9223372036854775808}"),
        Some(Value::Integer(i64::MIN))
    );
}

#[test]
fn as_string_variants() {
    let s = Value::String("moo".to_string());
    assert_eq!(s.as_string(), Some(&"moo".to_string()));
    assert_eq!(Value::Integer(3).as_string(), None);
    assert_eq!(Value::Bool(true).as_string(), None);
}
