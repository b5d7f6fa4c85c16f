use synson::{parse_array, JsonValue};

#[test]
fn should_parse_simple_arrays() {
    assert_eq!(
        parse_array("[1, true, \"ok\"]"),
        Ok((
            JsonValue::Array(vec![
                JsonValue::Number("1".to_string()),
                JsonValue::Bool(true),
                JsonValue::String("ok".to_string())
            ]),
            ""
        ))
    );

    assert_eq!(parse_array(" [ ] "), Ok((JsonValue::Array(vec![]), " ")));
}

#[test]
fn should_reject_malformed_arrays() {
    assert!(parse_array("[1, true,]").is_err());
    assert!(parse_array("[1 true]").is_err());
    assert!(parse_array("[1, ").is_err());
    assert!(parse_array("not an array").is_err());
}

#[test]
fn should_parse_nested_arrays_and_objects() {
    let result = parse_array(r#"[1, {"a": [true, false]}, 3]"#);
    assert_eq!(
        result,
        Ok((
            JsonValue::Array(vec![
                JsonValue::Number("1".to_string()),
                JsonValue::Object(vec![(
                    "a".to_string(),
                    JsonValue::Array(vec![JsonValue::Bool(true), JsonValue::Bool(false)]),
                )]),
                JsonValue::Number("3".to_string()),
            ]),
            ""
        ))
    );

    let result = parse_array(r#"[{"x": 1}, {"x": {"y": [2, 3]}}]"#);
    assert_eq!(
        result,
        Ok((
            JsonValue::Array(vec![
                JsonValue::Object(vec![(
                    "x".to_string(),
                    JsonValue::Number("1".to_string()),
                )]),
                JsonValue::Object(vec![(
                    "x".to_string(),
                    JsonValue::Object(vec![(
                        "y".to_string(),
                        JsonValue::Array(vec![
                            JsonValue::Number("2".to_string()),
                            JsonValue::Number("3".to_string()),
                        ]),
                    )]),
                )]),
            ]),
            ""
        ))
    );
}
