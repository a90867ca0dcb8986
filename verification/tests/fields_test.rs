use click_house_component::json::JsonLeaf;
use click_house_component::number::classify_field;
use serde_json::{Number, Value};

fn describe(l: &JsonLeaf) -> String {
    match l {
        JsonLeaf::Null => "null".to_string(),
        JsonLeaf::Bool(b) => format!("bool:{}", b),
        JsonLeaf::Number(n) => format!("num:{}", n.text()),
        JsonLeaf::String(s) => format!("str:{}", s),
        JsonLeaf::Nested(s) => format!("nested:{}", s),
    }
}

/// The field rules as the serde_json and `f64` calls apply them.
fn reference(val_trimmed: &str) -> String {
    let v = if let Ok(num) = val_trimmed.parse::<i64>() {
        Value::Number(num.into())
    } else if let Ok(float) = val_trimmed.parse::<f64>() {
        if let Some(num) = Number::from_f64(float) {
            Value::Number(num)
        } else {
            Value::String(val_trimmed.to_string())
        }
    } else if val_trimmed.eq_ignore_ascii_case("true") {
        Value::Bool(true)
    } else if val_trimmed.eq_ignore_ascii_case("false") {
        Value::Bool(false)
    } else if val_trimmed.eq_ignore_ascii_case("null") || val_trimmed.is_empty() {
        Value::Null
    } else {
        Value::String(val_trimmed.trim_matches('"').to_string())
    };
    match v {
        Value::Null => "null".to_string(),
        Value::Bool(b) => format!("bool:{}", b),
        Value::Number(n) => format!("num:{}", n),
        Value::String(s) => format!("str:{}", s),
        other => format!("nested:{}", other),
    }
}

fn classify(s: &str) -> String {
    let cs: Vec<char> = s.chars().collect();
    describe(&classify_field(&cs))
}

#[test]
fn field_classification_matches_reference_rules() {
    let samples = [
        "0", "1", "-1", "+5", "-0", "007", "9223372036854775807", "-9223372036854775808",
        "9223372036854775808", "-9223372036854775809", "123456789012345678901234567890",
        "450.50", "990.00", "0.1", ".5", "5.", "+.5", "-.5", "1e5", "1E5", "1e+5", "1e-5",
        "1.5e3", "2.e3", ".e3", "e3", "1e", "1e+", "1.2.3", "1e400", "-1e400", "1e-400",
        "0e400", "00012.50", "0.000000000000000000000000000001", "3.141592653589793238462643",
        "inf", "-inf", "+Infinity", "INF", "nan", "NaN", "-nan", "infinity", "infinit",
        "true", "TRUE", "True", "false", "FaLsE", "null", "NULL", "", "hello", "\"quoted\"",
        "\"\"", "\"", "a\"b\"", "Товар", "+", "-", ".", "1_000", "0x10", " 1", "1 ",
        "１２", "1e0", "1.0e-0", "-0.0", "+0.0", "5e-324", "1.7976931348623157e308",
        "1.7976931348623159e308", "2.2250738585072014e-308",
    ];
    for s in samples {
        assert_eq!(classify(s), reference(s), "field {:?}", s);
    }
}

#[test]
fn decimal_field_becomes_shortest_float_text() {
    assert_eq!(classify("450.50"), "num:450.5");
    assert_eq!(classify("990.00"), "num:990.0");
    assert_eq!(classify("9223372036854775808"), "num:9.223372036854776e+18");
}

#[test]
fn integer_field_keeps_its_value() {
    assert_eq!(classify("42"), "num:42");
    assert_eq!(classify("-17"), "num:-17");
    assert_eq!(classify("+8"), "num:8");
    assert_eq!(classify("0042"), "num:42");
}

#[test]
fn nonfinite_and_overflowing_fields_stay_text() {
    assert_eq!(classify("inf"), "str:inf");
    assert_eq!(classify("NaN"), "str:NaN");
    assert_eq!(classify("1e400"), "str:1e400");
}

#[test]
fn words_and_quotes() {
    assert_eq!(classify("TRUE"), "bool:true");
    assert_eq!(classify("False"), "bool:false");
    assert_eq!(classify("Null"), "null");
    assert_eq!(classify(""), "null");
    assert_eq!(classify("\"quoted\""), "str:quoted");
    assert_eq!(classify("Товар \"Спец\""), "str:Товар \"Спец");
}
