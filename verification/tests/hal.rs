use xcvrd::hal::sanitize_nonfinite_json;
use xcvrd::json::{value_to_py_str, Value as Held};
use serde_json::Value;

fn parse(s: &str) -> Value {
    serde_json::from_str(&sanitize_nonfinite_json(s))
        .unwrap_or_else(|e| panic!("sanitized json must parse: {e}\ninput: {s}"))
}

fn number(s: &str) -> Value {
    serde_json::from_str(s).unwrap()
}

#[test]
fn bare_nonfinite_tokens_become_quoted_python_str_form() {
    let raw = r#"{"temphighalarm": -Infinity, "vcchighalarm": Infinity, "txbiashighalarm": NaN}"#;
    let v = parse(raw);
    assert_eq!(v["temphighalarm"], Value::String("-inf".into()));
    assert_eq!(v["vcchighalarm"], Value::String("inf".into()));
    assert_eq!(v["txbiashighalarm"], Value::String("nan".into()));
}

#[test]
fn quoted_field_text_is_untouched() {
    let raw = r#"{"note": "value is -Infinity or NaN", "x": -Infinity}"#;
    let v = parse(raw);
    assert_eq!(v["note"], Value::String("value is -Infinity or NaN".into()));
    assert_eq!(v["x"], Value::String("-inf".into()));
}

#[test]
fn escaped_quote_inside_string_does_not_end_it_early() {
    let raw = r#"{"note": "a \"quoted -Infinity\" word", "x": Infinity}"#;
    let v = parse(raw);
    assert_eq!(v["note"], Value::String(r#"a "quoted -Infinity" word"#.into()));
    assert_eq!(v["x"], Value::String("inf".into()));
}

#[test]
fn finite_and_ordinary_json_is_byte_identical() {
    let raw = r#"{"temphighalarm": 75.0, "temphighwarning": 70, "vendor": "ACME", "ok": true, "n": null}"#;
    assert_eq!(sanitize_nonfinite_json(raw), raw);
    let v = parse(raw);
    assert_eq!(v["temphighalarm"], number("75.0"));
    assert_eq!(v["temphighwarning"], number("70"));
    assert_eq!(v["vendor"], Value::String("ACME".into()));
}

#[test]
fn negative_finite_numbers_are_not_confused_with_neg_infinity() {
    let raw = r#"{"a": -40.0, "b": -Infinity}"#;
    let v = parse(raw);
    assert_eq!(v["a"], number("-40.0"));
    assert_eq!(v["b"], Value::String("-inf".into()));
}

#[test]
fn sanitized_nonfinite_renders_to_python_str_field_text() {
    let raw = r#"{"temphighalarm": -Infinity, "vcchighalarm": Infinity, "txpower": NaN}"#;
    let v = parse(raw);
    let obj = v.as_object().unwrap();
    let shown = |name: &str| match &obj[name] {
        Value::String(s) => value_to_py_str(&Held::Str(s.clone())),
        other => panic!("expected a text, got {other}"),
    };
    assert_eq!(shown("temphighalarm"), "-inf");
    assert_eq!(shown("vcchighalarm"), "inf");
    assert_eq!(shown("txpower"), "nan");
}

#[test]
fn empty_and_no_token_inputs_are_stable() {
    assert_eq!(sanitize_nonfinite_json(""), "");
    assert_eq!(sanitize_nonfinite_json("{}"), "{}");
    assert_eq!(sanitize_nonfinite_json(r#"{"a": 1}"#), r#"{"a": 1}"#);
}

#[test]
fn tokens_are_replaced_once() {
    let once = sanitize_nonfinite_json(r#"[-Infinity, NaN]"#);
    assert_eq!(once, r#"["-inf", "nan"]"#);
    assert_eq!(sanitize_nonfinite_json(&once), once);
}

#[test]
fn words_are_replaced_outside_of_strings_alone() {
    assert_eq!(
        sanitize_nonfinite_json(r#"{"NaN": NaN, "a\\": Infinity, "-Infinity": [-Infinity]}"#),
        r#"{"NaN": "nan", "a\\": "inf", "-Infinity": ["-inf"]}"#
    );
    // A string that does not end hides what comes after.
    assert_eq!(sanitize_nonfinite_json(r#"NaN "NaN"#), r#""nan" "NaN"#);
}
