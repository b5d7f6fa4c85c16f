use synson::{parse_number, JsonValue};

fn num(t: &str) -> JsonValue {
    JsonValue::Number(t.to_string())
}

#[test]
fn should_parse_valid_numbers() {
    assert_eq!(parse_number("0"), Ok((num("0"), "")));
    assert_eq!(parse_number("42 "), Ok((num("42"), " ")));
    assert_eq!(parse_number("-12.5,"), Ok((num("-12.5"), ",")));

    // Exponentials
    assert_eq!(parse_number("1e3"), Ok((num("1e3"), "")));
    assert_eq!(parse_number("2E2 "), Ok((num("2E2"), " ")));
    assert_eq!(parse_number("-3.5e-1"), Ok((num("-3.5e-1"), "")));
    assert_eq!(parse_number("0.5e+2"), Ok((num("0.5e+2"), "")));

    // Edge cases
    assert_eq!(parse_number("-0"), Ok((num("-0"), "")));
    assert_eq!(parse_number("0.0"), Ok((num("0.0"), "")));
}

#[test]
fn should_reject_invalid_numbers() {
    // Empty or incomplete
    assert!(parse_number("").is_err());
    assert!(parse_number("-").is_err());
    assert!(parse_number(".").is_err());

    // Invalid sequences
    assert!(parse_number("12abc").is_err());
    assert!(parse_number("--1").is_err());
    assert!(parse_number("1.2.3").is_err());

    // Exponentials without digits
    assert!(parse_number("1e").is_err());
    assert!(parse_number("1e+").is_err());
    assert!(parse_number("1e-").is_err());
    assert!(parse_number("1e+2.3").is_err());
    assert!(parse_number("1e-2.3").is_err());

    // Invalid suffix
    assert!(parse_number("3.1415rest").is_err());

    // Leading dot or trailing dot
    assert!(parse_number(".5").is_err());
    assert!(parse_number("5.").is_err());

    // Leading zero violations
    assert!(parse_number("01").is_err());
    assert!(parse_number("00").is_err());
}

#[test]
fn should_keep_the_float_value_of_literals() {
    // The value payload is the literal text; it denotes the same 64-bit
    // float the original literal does.
    for (text, expected) in [
        ("1e3", 1000.0_f64),
        ("2E2", 200.0),
        ("-3.5e-1", -0.35),
        ("0.5e+2", 50.0),
        ("-12.5", -12.5),
    ] {
        match parse_number(text) {
            Ok((JsonValue::Number(t), _)) => {
                assert_eq!(t.parse::<f64>().unwrap(), expected);
            }
            other => panic!("expected a number for {text}, got {other:?}"),
        }
    }
}
