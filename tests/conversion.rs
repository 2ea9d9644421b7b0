use tempconv::render::{decimal_text, fixed_point_text, format_conversion_output, whole_value};
use tempconv::temperature::Temperature;
use tempconv::unit::TemperatureUnit;

fn equation(num: i128, den: i128, unit: TemperatureUnit) -> String {
    let original = Temperature::new(num, den, unit);
    let converted = original.convert_to(unit.other());
    format_conversion_output(original, converted)
}

#[test]
fn freezing_fahrenheit_is_zero_celsius_in_whole_numbers() {
    assert_eq!(
        equation(32, 1, TemperatureUnit::Fahrenheit),
        "\n(32°F - 32) * (5/9) = 0°C"
    );
}

#[test]
fn fractional_original_rendered_whole_when_result_is_whole() {
    assert_eq!(
        equation(986, 10, TemperatureUnit::Fahrenheit),
        "\n(99°F - 32) * (5/9) = 37°C"
    );
}

#[test]
fn boiling_celsius_is_212_fahrenheit() {
    assert_eq!(
        equation(100, 1, TemperatureUnit::Celcius),
        "\n(100°C * 9/5) + 32 = 212°F"
    );
}

#[test]
fn zero_celsius_is_32_fahrenheit() {
    assert_eq!(
        equation(0, 1, TemperatureUnit::Celcius),
        "\n(0°C * 9/5) + 32 = 32°F"
    );
}

#[test]
fn one_celsius_uses_one_decimal_on_both_sides() {
    assert_eq!(
        equation(1, 1, TemperatureUnit::Celcius),
        "\n(1.0°C * 9/5) + 32 = 33.8°F"
    );
}

#[test]
fn minus_forty_is_the_same_on_both_scales() {
    assert_eq!(
        equation(-40, 1, TemperatureUnit::Fahrenheit),
        "\n(-40°F - 32) * (5/9) = -40°C"
    );
}

#[test]
fn repeating_fraction_rounds_to_one_decimal() {
    assert_eq!(
        equation(1, 1, TemperatureUnit::Fahrenheit),
        "\n(1.0°F - 32) * (5/9) = -17.2°C"
    );
}

#[test]
fn fahrenheit_to_celsius_formula() {
    let t = Temperature::new(212, 1, TemperatureUnit::Fahrenheit).to_celcius();
    assert_eq!(t.unit, TemperatureUnit::Celcius);
    assert_eq!((t.num, t.den), (900, 9));
}

#[test]
fn celsius_to_fahrenheit_formula() {
    let t = Temperature::new(37, 1, TemperatureUnit::Celcius).to_fahrenheit();
    assert_eq!(t.unit, TemperatureUnit::Fahrenheit);
    assert_eq!((t.num, t.den), (493, 5));
}

#[test]
fn same_scale_conversion_is_identity() {
    let t = Temperature::new(71, 2, TemperatureUnit::Celcius);
    assert_eq!(t.convert_to(TemperatureUnit::Celcius), t);
}

#[test]
fn round_trip_from_fahrenheit_returns_the_value() {
    let t = Temperature::new(986, 10, TemperatureUnit::Fahrenheit);
    let back = t.convert_to(TemperatureUnit::Celcius).convert_to(TemperatureUnit::Fahrenheit);
    assert_eq!(back.unit, TemperatureUnit::Fahrenheit);
    assert_eq!(back.num * t.den, t.num * back.den);
}

#[test]
fn round_trip_from_celsius_returns_the_value() {
    let t = Temperature::new(-173, 10, TemperatureUnit::Celcius);
    let back = t.convert_to(TemperatureUnit::Fahrenheit).convert_to(TemperatureUnit::Celcius);
    assert_eq!(back.unit, TemperatureUnit::Celcius);
    assert_eq!(back.num * t.den, t.num * back.den);
}

#[test]
fn decimal_digits() {
    assert_eq!(decimal_text(0), "0");
    assert_eq!(decimal_text(7), "7");
    assert_eq!(decimal_text(1234), "1234");
}

#[test]
fn ties_round_to_even() {
    assert_eq!(fixed_point_text(25, 100, true), "0.2");
    assert_eq!(fixed_point_text(35, 100, true), "0.4");
    assert_eq!(fixed_point_text(5, 2, false), "2");
    assert_eq!(fixed_point_text(7, 2, false), "4");
}

#[test]
fn negative_values_keep_their_sign() {
    assert_eq!(fixed_point_text(-4, 10, false), "-0");
    assert_eq!(fixed_point_text(-155, 9, true), "-17.2");
}

#[test]
fn whole_values() {
    assert!(whole_value(-360, 9));
    assert!(!whole_value(169, 5));
    assert!(whole_value(0, 7));
}

#[test]
fn unit_symbols_and_opposites() {
    assert_eq!(TemperatureUnit::Fahrenheit.symbol(), "F");
    assert_eq!(TemperatureUnit::Celcius.symbol(), "C");
    assert_eq!(TemperatureUnit::Fahrenheit.other(), TemperatureUnit::Celcius);
    assert_eq!(TemperatureUnit::Celcius.other(), TemperatureUnit::Fahrenheit);
}
