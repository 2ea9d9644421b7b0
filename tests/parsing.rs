use tempconv::text::{parse_value, same_text, sanitize};
use tempconv::unit::{parse_unit, unit_from_folded, TemperatureUnit};

#[test]
fn unit_tokens_in_any_case() {
    assert_eq!(parse_unit("F"), Some(TemperatureUnit::Fahrenheit));
    assert_eq!(parse_unit("f"), Some(TemperatureUnit::Fahrenheit));
    assert_eq!(parse_unit("FahrenHeit"), Some(TemperatureUnit::Fahrenheit));
    assert_eq!(parse_unit("C"), Some(TemperatureUnit::Celcius));
    assert_eq!(parse_unit("CELCIUS"), Some(TemperatureUnit::Celcius));
}

#[test]
fn other_unit_tokens_rejected() {
    assert_eq!(parse_unit("x"), None);
    assert_eq!(parse_unit(""), None);
    assert_eq!(parse_unit("celsius"), None);
    assert_eq!(parse_unit("k"), None);
    assert_eq!(parse_unit("ff"), None);
}

#[test]
fn folded_tokens_are_matched_exactly() {
    assert_eq!(unit_from_folded("fahrenheit"), Some(TemperatureUnit::Fahrenheit));
    assert_eq!(unit_from_folded("c"), Some(TemperatureUnit::Celcius));
    assert_eq!(unit_from_folded("C"), None);
}

#[test]
fn sanitize_trims_and_lowercases() {
    assert_eq!(sanitize("  QuIt \n"), "quit");
    assert_eq!(sanitize("\tF\r\n"), "f");
    assert_eq!(sanitize(""), "");
}

#[test]
fn same_text_compares_characters() {
    assert!(same_text("quit", "quit"));
    assert!(!same_text("quit", "quits"));
    assert!(!same_text("quit", "qu1t"));
}

#[test]
fn numbers_become_fractions() {
    assert_eq!(parse_value("98.6"), Some((986, 10)));
    assert_eq!(parse_value("-40"), Some((-40, 1)));
    assert_eq!(parse_value("+5"), Some((5, 1)));
    assert_eq!(parse_value(".5"), Some((5, 10)));
    assert_eq!(parse_value("5."), Some((5, 1)));
    assert_eq!(parse_value("-0.25"), Some((-25, 100)));
    assert_eq!(parse_value("123456789012345678"), Some((123456789012345678, 1)));
}

#[test]
fn malformed_numbers_rejected() {
    assert_eq!(parse_value(""), None);
    assert_eq!(parse_value("."), None);
    assert_eq!(parse_value("-"), None);
    assert_eq!(parse_value("abc"), None);
    assert_eq!(parse_value("1.2.3"), None);
    assert_eq!(parse_value("12a"), None);
    assert_eq!(parse_value("--1"), None);
    assert_eq!(parse_value("1234567890123456789"), None);
}

#[test]
fn exponents_scale_the_value() {
    assert_eq!(parse_value("1e2"), Some((100, 1)));
    assert_eq!(parse_value("2E+1"), Some((20, 1)));
    assert_eq!(parse_value("-2.5e1"), Some((-25, 1)));
    assert_eq!(parse_value("1.5e-3"), Some((15, 10000)));
    assert_eq!(parse_value("0e50"), Some((0, 1)));
}

#[test]
fn malformed_or_oversized_exponents_rejected() {
    assert_eq!(parse_value("1e"), None);
    assert_eq!(parse_value("e5"), None);
    assert_eq!(parse_value("1e+"), None);
    assert_eq!(parse_value("1e2.5"), None);
    assert_eq!(parse_value("1e19"), None);
    assert_eq!(parse_value("1e-19"), None);
    assert_eq!(parse_value("1e12345"), None);
}
