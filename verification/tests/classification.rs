use jayrock::JsonTextReader;
use jayrock::JsonTokenKind;

fn kind_of_scalar(src: &str) -> (JsonTokenKind, String) {
    let mut reader = JsonTextReader::new(src);
    let token = reader.next_token().unwrap().unwrap();
    (token.kind(), token.text().to_string())
}

#[test]
fn integers_classify_as_number() {
    assert_eq!(kind_of_scalar("123").0, JsonTokenKind::Number);
}

#[test]
fn signed_exponent_classifies_as_number() {
    assert_eq!(kind_of_scalar("-1.5e10").0, JsonTokenKind::Number);
}

#[test]
fn fraction_classifies_as_number() {
    assert_eq!(kind_of_scalar("0.5").0, JsonTokenKind::Number);
}

#[test]
fn word_classifies_as_string() {
    assert_eq!(kind_of_scalar("abc").0, JsonTokenKind::String);
}

#[test]
fn double_point_classifies_as_string() {
    assert_eq!(kind_of_scalar("1.2.3").0, JsonTokenKind::String);
}

#[test]
fn keywords_classify_case_sensitively() {
    assert_eq!(kind_of_scalar("null").0, JsonTokenKind::Null);
    assert_eq!(kind_of_scalar("true").0, JsonTokenKind::True);
    assert_eq!(kind_of_scalar("false").0, JsonTokenKind::False);
    assert_eq!(kind_of_scalar("NULL").0, JsonTokenKind::String);
    assert_eq!(kind_of_scalar("True").0, JsonTokenKind::String);
}

#[test]
fn number_edge_forms() {
    assert_eq!(kind_of_scalar("1.").0, JsonTokenKind::Number);
    assert_eq!(kind_of_scalar(".5").0, JsonTokenKind::Number);
    assert_eq!(kind_of_scalar("+7").0, JsonTokenKind::Number);
    assert_eq!(kind_of_scalar("1e+5").0, JsonTokenKind::Number);
    assert_eq!(kind_of_scalar("2E8").0, JsonTokenKind::Number);
}

#[test]
fn number_near_misses_classify_as_string() {
    assert_eq!(kind_of_scalar(".").0, JsonTokenKind::String);
    assert_eq!(kind_of_scalar("1e").0, JsonTokenKind::String);
    assert_eq!(kind_of_scalar("1e+").0, JsonTokenKind::String);
    assert_eq!(kind_of_scalar("e5").0, JsonTokenKind::String);
    assert_eq!(kind_of_scalar("--1").0, JsonTokenKind::String);
    assert_eq!(kind_of_scalar("1+2").0, JsonTokenKind::String);
}

#[test]
fn float_special_forms_classify_as_number() {
    // The standard library's float grammar accepts these, so the
    // classification does too.
    assert_eq!(kind_of_scalar("inf").0, JsonTokenKind::Number);
    assert_eq!(kind_of_scalar("-Infinity").0, JsonTokenKind::Number);
    assert_eq!(kind_of_scalar("NaN").0, JsonTokenKind::Number);
}

#[test]
fn hex_prefix_classifies_as_string() {
    // Only a decimal floating-point parse is attempted, so 0x- and
    // 0-prefixed forms are not treated as numbers.
    assert_eq!(kind_of_scalar("0x10").0, JsonTokenKind::String);
}

#[test]
fn trailing_unicode_whitespace_is_trimmed_for_classification() {
    // U+00A0 is significant and not reserved, so it lands in the token's
    // text; classification right-trims it before the number parse.
    let (kind, text) = kind_of_scalar("1\u{a0}");
    assert_eq!(kind, JsonTokenKind::Number);
    assert_eq!(text, "1\u{a0}");
}
