use tempconv::session::{exit_message, step, step_line, Action, Event, Stage};
use tempconv::unit::TemperatureUnit;

fn line(s: &str) -> Event {
    Event::Line(s.to_string())
}

#[test]
fn quit_at_unit_prompt_in_any_case() {
    assert_eq!(step(Stage::AwaitingUnit, line("  QUIT\n")), (Stage::Quit, Action::Exit));
}

#[test]
fn quit_at_value_prompt_in_any_case() {
    let stage = Stage::AwaitingValue(TemperatureUnit::Celcius);
    assert_eq!(step(stage, line("Quit")), (Stage::Quit, Action::Exit));
}

#[test]
fn invalid_unit_asks_again() {
    assert_eq!(
        step(Stage::AwaitingUnit, line("x")),
        (
            Stage::AwaitingUnit,
            Action::Retry("Invalid input. Please enter 'C' or 'F'.".to_string())
        )
    );
}

#[test]
fn valid_unit_moves_to_value_prompt() {
    assert_eq!(
        step(Stage::AwaitingUnit, line(" Fahrenheit \n")),
        (Stage::AwaitingValue(TemperatureUnit::Fahrenheit), Action::Advance)
    );
}

#[test]
fn invalid_value_asks_again() {
    let stage = Stage::AwaitingValue(TemperatureUnit::Fahrenheit);
    assert_eq!(
        step(stage, line("warm")),
        (stage, Action::Retry("Invalid temperature. Please enter a number.".to_string()))
    );
}

#[test]
fn value_completes_the_cycle() {
    let stage = Stage::AwaitingValue(TemperatureUnit::Fahrenheit);
    assert_eq!(
        step(stage, line("98.6\n")),
        (Stage::Done, Action::Report("\n(99°F - 32) * (5/9) = 37°C".to_string()))
    );
}

#[test]
fn end_of_input_at_unit_prompt_fails() {
    assert_eq!(step(Stage::AwaitingUnit, Event::ReadFailed), (Stage::IoFailure, Action::Abort));
}

#[test]
fn end_of_input_at_value_prompt_fails() {
    let stage = Stage::AwaitingValue(TemperatureUnit::Celcius);
    assert_eq!(step(stage, Event::ReadFailed), (Stage::IoFailure, Action::Abort));
}

#[test]
fn finished_cycle_ignores_events() {
    assert_eq!(step(Stage::Done, line("f")), (Stage::Done, Action::Idle));
    assert_eq!(step(Stage::Quit, Event::ReadFailed), (Stage::Quit, Action::Idle));
}

#[test]
fn step_line_reads_cleaned_text() {
    assert_eq!(step_line(Stage::AwaitingUnit, "c"), (Stage::AwaitingValue(TemperatureUnit::Celcius), Action::Advance));
    assert_eq!(
        step_line(Stage::AwaitingValue(TemperatureUnit::Celcius), "1"),
        (Stage::Done, Action::Report("\n(1.0°C * 9/5) + 32 = 33.8°F".to_string()))
    );
}

#[test]
fn prompts_per_stage() {
    assert_eq!(
        Stage::AwaitingUnit.prompt(),
        Some("Enter C to convert to Fahrenheit or F to convert to Celsius".to_string())
    );
    assert_eq!(
        Stage::AwaitingValue(TemperatureUnit::Celcius).prompt(),
        Some("Enter a number to convert Celsius to Fahrenheit.".to_string())
    );
    assert_eq!(
        Stage::AwaitingValue(TemperatureUnit::Fahrenheit).prompt(),
        Some("Enter a number to convert Fahrenheit to Celsius.".to_string())
    );
    assert_eq!(Stage::Done.prompt(), None);
    assert!(Stage::AwaitingUnit.is_awaiting());
    assert!(!Stage::IoFailure.is_awaiting());
    assert_eq!(exit_message(), "Exiting program.");
}

#[test]
fn exponent_value_completes_the_cycle() {
    let stage = Stage::AwaitingValue(TemperatureUnit::Celcius);
    assert_eq!(
        step(stage, line("1E2")),
        (Stage::Done, Action::Report("\n(100°C * 9/5) + 32 = 212°F".to_string()))
    );
}
