use synson::model::{ErrorKind, JsonParseError, JsonParseOptions};
use synson::{parse_json, parse_value, JsonValue};

fn num(t: &str) -> JsonValue {
    JsonValue::Number(t.to_string())
}

#[test]
fn round_trip_returns_the_canonical_value() {
    // Objects come back with their entries ordered by key; everything else
    // comes back exactly as it was.
    let v = JsonValue::Object(vec![
        ("b".to_string(), JsonValue::Bool(false)),
        (
            "a".to_string(),
            JsonValue::Array(vec![
                num("-12.5"),
                JsonValue::String("line\nbreak \u{1F600}".to_string()),
                JsonValue::Null,
            ]),
        ),
    ]);
    let text = v.to_json();
    let parsed = parse_json(&text, None).expect("round trip should parse");
    let canonical = JsonValue::Object(vec![
        (
            "a".to_string(),
            JsonValue::Array(vec![
                num("-12.5"),
                JsonValue::String("line\nbreak \u{1F600}".to_string()),
                JsonValue::Null,
            ]),
        ),
        ("b".to_string(), JsonValue::Bool(false)),
    ]);
    assert_eq!(parsed, canonical);
    // A canonical value serializes to the same text again.
    assert_eq!(parsed.to_json(), text);
}

#[test]
fn round_trip_keeps_scalars_exactly() {
    for text in ["null", "true", "false", "0", "-0", "1e308", "\"\"", "[]", "{}"] {
        let v = parse_json(text, None).expect("scalar should parse");
        assert_eq!(v.to_json(), text);
    }
}

#[test]
fn empty_and_blank_inputs_fail() {
    assert!(parse_json("", None).is_err());
    assert!(parse_json("   ", None).is_err());
}

#[test]
fn malformed_null_literal_is_not_unmatched() {
    // The malformed-token error just past the literal surfaces as a hard
    // error; the dispatcher does not fall past it to a not-this-type signal.
    let err = parse_json("nulla", None).unwrap_err();
    assert!(matches!(err.kind, ErrorKind::UnexpectedChar('a')));
    assert_eq!(err.index, 4);
}

#[test]
fn missing_comma_between_array_elements() {
    let err = parse_json("[1 2]", None).unwrap_err();
    assert!(matches!(err.kind, ErrorKind::ExpectedComma));
}

#[test]
fn trailing_comma_in_short_array() {
    let err = parse_json("[1,2,]", None).unwrap_err();
    assert!(matches!(err.kind, ErrorKind::TrailingComma));
}

#[test]
fn surrogate_pair_yields_single_scalar() {
    assert_eq!(
        parse_json("\"\\uD83D\\uDE00\"", None),
        Ok(JsonValue::String("\u{1F600}".to_string()))
    );
}

#[test]
fn tolerant_mode_returns_parsed_prefix() {
    assert_eq!(
        parse_json("true false", Some(&JsonParseOptions::tolerant())),
        Ok(JsonValue::Bool(true))
    );
}

#[test]
fn serializer_sorts_keys_regardless_of_insertion_order() {
    let obj = JsonValue::Object(vec![
        ("b".to_string(), JsonValue::Bool(false)),
        ("a".to_string(), num("1")),
    ]);
    assert_eq!(obj.to_json(), "{\"a\":1,\"b\":false}");
}

#[test]
fn serializer_escapes_control_characters() {
    let s = JsonValue::String("bell\u{0007} и \u{009f}".to_string());
    assert_eq!(s.to_json(), "\"bell\\u0007 и \\u009f\"");
}

#[test]
fn error_positions_track_lines() {
    let err = parse_json("[true,\nfalse,]", None).unwrap_err();
    assert!(matches!(err.kind, ErrorKind::TrailingComma));
    assert_eq!(err.index, 13);
    assert_eq!(err.line, 2);
    assert_eq!(err.column, 7);
}

#[test]
fn empty_string_input_reports_unexpected_eof() {
    let err = synson::parse_string("").unwrap_err();
    assert!(matches!(err.kind, ErrorKind::UnexpectedEof));
}

#[test]
fn snippet_escapes_its_window_exactly() {
    let err = JsonParseError::new("ab\ncd", 3, ErrorKind::UnexpectedEof);
    assert_eq!(err.snippet, "near 'ab\\ncd'");
    assert_eq!(err.line, 2);
    assert_eq!(err.column, 1);
}

#[test]
fn error_constructor_computes_location_and_snippet() {
    let input = "{ \"a\": tru }";
    let err = JsonParseError::new(input, 8, ErrorKind::UnexpectedChar('t'));
    assert_eq!(err.index, 8);
    assert_eq!(err.line, 1);
    assert_eq!(err.column, 9);
    assert!(err.snippet.contains("tru"));
}

#[test]
fn unmatched_error_carries_literal_name() {
    let err = JsonParseError::unmatched("null", "not_null");
    assert_eq!(err.index, 0);
    assert!(matches!(err.kind, ErrorKind::Custom(ref msg) if msg.contains("Expected 'null'")));
}

#[test]
fn options_presets_set_both_switches() {
    let strict = JsonParseOptions::strict();
    assert!(strict.strict && !strict.allow_trailing_commas);
    let tolerant = JsonParseOptions::tolerant();
    assert!(!tolerant.strict && tolerant.allow_trailing_commas);
    let by_default = JsonParseOptions::default();
    assert_eq!(by_default, strict);
    let custom = JsonParseOptions::new(false, false);
    assert!(!custom.strict && !custom.allow_trailing_commas);
}

#[test]
fn parse_value_returns_the_unconsumed_remainder() {
    assert_eq!(
        parse_value("true , 1"),
        Ok((JsonValue::Bool(true), " , 1"))
    );
    assert!(parse_value("!invalid").is_err());
}

#[test]
fn key_value_pair_key_errors_are_expected_string_key() {
    let err = synson::parse_key_value_pair("123: true").unwrap_err();
    assert!(matches!(err.kind, ErrorKind::ExpectedStringKey));
}

#[test]
fn clone_makes_an_equal_value() {
    let v = JsonValue::Object(vec![
        ("a".to_string(), num("1.5")),
        (
            "b".to_string(),
            JsonValue::Array(vec![JsonValue::Null, JsonValue::String("x".to_string())]),
        ),
    ]);
    let w = v.clone();
    assert_eq!(v, w);
    assert_eq!(w.to_json(), v.to_json());
}

#[test]
fn whitespace_variants_are_skipped() {
    assert_eq!(
        parse_json("\r\n\t {\"k\"\n:\t[ ]\r}  \n", None),
        Ok(JsonValue::Object(vec![(
            "k".to_string(),
            JsonValue::Array(vec![])
        )]))
    );
}

#[test]
fn nested_arrays_parse_to_matching_depth() {
    let depth = 64;
    let text = format!("{}{}", "[".repeat(depth), "]".repeat(depth));
    let v = parse_json(&text, None).expect("deep nesting should parse");
    let mut d = 0;
    let mut cur = &v;
    loop {
        match cur {
            JsonValue::Array(es) if es.len() == 1 => {
                d += 1;
                cur = &es[0];
            }
            JsonValue::Array(_) => {
                d += 1;
                break;
            }
            _ => break,
        }
    }
    assert_eq!(d, depth);
    assert_eq!(v.to_json(), text);
}
