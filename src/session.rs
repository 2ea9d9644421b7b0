use vstd::prelude::*;
use vstd::string::*;
use crate::render::{equation_text, format_conversion_output};
use crate::temperature::{Temperature, converted_temperature};
use crate::text::{decimal_value, lower_of, parse_value, sanitize, same_text, trim_of};
use crate::unit::{TemperatureUnit, opposite, unit_from_folded, unit_token};

verus! {

/// Where one conversion cycle stands.
#[derive(Debug, Clone, Copy, PartialEq, Eq, Structural)]
pub enum Stage {
    /// Asking for the scale to convert from.
    AwaitingUnit,
    /// Asking for the value, on the scale already chosen.
    AwaitingValue(TemperatureUnit),
    /// The conversion was shown.
    Done,
    /// The user typed the quit keyword.
    Quit,
    /// A line could not be read.
    IoFailure,
}

/// What happened at a prompt.
#[derive(Debug, PartialEq, Eq)]
pub enum Event {
    /// A line was read, as typed.
    Line(String),
    /// Reading failed, or the input ended.
    ReadFailed,
}

/// What the caller does after a step.
#[derive(Debug, PartialEq, Eq)]
pub enum Action {
    /// Say goodbye: the user quit.
    Exit,
    /// Show this error, then ask the same question again.
    Retry(String),
    /// Ask the next question.
    Advance,
    /// Show this equation: the cycle is complete.
    Report(String),
    /// Give up with an input failure.
    Abort,
    /// Nothing: the cycle was already over.
    Idle,
}

/// The keyword that ends the program at any prompt.
pub open spec fn quit_word() -> Seq<char> {
    seq!['q', 'u', 'i', 't']
}

pub open spec fn unit_error_text() -> Seq<char> {
    "Invalid input. Please enter 'C' or 'F'."@
}

pub open spec fn value_error_text() -> Seq<char> {
    "Invalid temperature. Please enter a number."@
}

pub open spec fn exit_text() -> Seq<char> {
    "Exiting program."@
}

/// The question asked in a stage that waits for input.
pub open spec fn prompt_text(stage: Stage) -> Option<Seq<char>> {
    match stage {
        Stage::AwaitingUnit => Some("Enter C to convert to Fahrenheit or F to convert to Celsius"@),
        Stage::AwaitingValue(TemperatureUnit::Celcius) => Some(
            "Enter a number to convert Celsius to Fahrenheit."@,
        ),
        Stage::AwaitingValue(TemperatureUnit::Fahrenheit) => Some(
            "Enter a number to convert Fahrenheit to Celsius."@,
        ),
        _ => None,
    }
}

/// The equation shown for the value `n / d` typed on scale `u`.
pub open spec fn report_text(u: TemperatureUnit, n: int, d: int) -> Seq<char> {
    let t = Temperature { num: n as i128, den: d as i128, unit: u };
    equation_text(t, converted_temperature(t, opposite(u)))
}

/// One step of the cycle: in `stage`, the sanitized line `cleaned` leads to
/// `next` and `action`.
pub open spec fn step_result(stage: Stage, cleaned: Seq<char>, next: Stage, action: Action) -> bool {
    match stage {
        Stage::AwaitingUnit => if cleaned == quit_word() {
            next == Stage::Quit && action is Exit
        } else {
            match unit_token(cleaned) {
                Some(u) => next == Stage::AwaitingValue(u) && action is Advance,
                None => next == stage && (action matches Action::Retry(m) && m@ == unit_error_text()),
            }
        },
        Stage::AwaitingValue(u) => if cleaned == quit_word() {
            next == Stage::Quit && action is Exit
        } else {
            match decimal_value(cleaned) {
                Some((n, d)) => next == Stage::Done && (action matches Action::Report(s) && s@
                    == report_text(u, n, d)),
                None => next == stage && (action matches Action::Retry(m) && m@ == value_error_text()),
            }
        },
        _ => next == stage && action is Idle,
    }
}

/// The stage waits for a line.
pub open spec fn awaiting(stage: Stage) -> bool {
    stage is AwaitingUnit || stage is AwaitingValue
}

/// At either prompt the quit keyword ends the cycle with the goodbye action,
/// and nothing else of the line is read.
pub proof fn lemma_quit_at_every_prompt(stage: Stage, cleaned: Seq<char>, next: Stage, action: Action)
    requires
        awaiting(stage),
        cleaned == quit_word(),
        step_result(stage, cleaned, next, action),
    ensures
        next == Stage::Quit,
        action is Exit,
{
}

/// At the unit prompt a line that is neither the quit keyword nor a scale
/// leaves the stage as it was and shows the unit error.
pub proof fn lemma_invalid_unit_keeps_stage(cleaned: Seq<char>, next: Stage, action: Action)
    requires
        cleaned != quit_word(),
        unit_token(cleaned) is None,
        step_result(Stage::AwaitingUnit, cleaned, next, action),
    ensures
        next == Stage::AwaitingUnit,
        action matches Action::Retry(m) && m@ == unit_error_text(),
{
}

impl Stage {
    /// The question to ask in this stage, if it waits for input.
    pub fn prompt(&self) -> (r: Option<String>)
        ensures
            match r {
                Some(s) => prompt_text(*self) == Some(s@),
                None => prompt_text(*self) is None,
            },
    {
        match self {
            Stage::AwaitingUnit => Some(
                String::from_str("Enter C to convert to Fahrenheit or F to convert to Celsius"),
            ),
            Stage::AwaitingValue(TemperatureUnit::Celcius) => Some(
                String::from_str("Enter a number to convert Celsius to Fahrenheit."),
            ),
            Stage::AwaitingValue(TemperatureUnit::Fahrenheit) => Some(
                String::from_str("Enter a number to convert Fahrenheit to Celsius."),
            ),
            _ => None,
        }
    }

    /// This stage waits for a line.
    pub fn is_awaiting(&self) -> (r: bool)
        ensures
            r == awaiting(*self),
    {
        match self {
            Stage::AwaitingUnit | Stage::AwaitingValue(_) => true,
            _ => false,
        }
    }
}

/// The message shown when the user quits.
pub fn exit_message() -> (r: String)
    ensures
        r@ == exit_text(),
{
    String::from_str("Exiting program.")
}

/// One step of the cycle on a line that is already trimmed and lower-cased.
pub fn step_line(stage: Stage, cleaned: &str) -> (r: (Stage, Action))
    ensures
        step_result(stage, cleaned@, r.0, r.1),
{
    proof {
        reveal_strlit("quit");
        assert("quit"@ =~= quit_word());
    }
    match stage {
        Stage::AwaitingUnit => {
            if same_text(cleaned, "quit") {
                (Stage::Quit, Action::Exit)
            } else {
                match unit_from_folded(cleaned) {
                    Some(u) => (Stage::AwaitingValue(u), Action::Advance),
                    None => (
                        stage,
                        Action::Retry(String::from_str("Invalid input. Please enter 'C' or 'F'.")),
                    ),
                }
            }
        },
        Stage::AwaitingValue(u) => {
            if same_text(cleaned, "quit") {
                (Stage::Quit, Action::Exit)
            } else {
                match parse_value(cleaned) {
                    Some((n, d)) => {
                        let original = Temperature::new(n, d, u);
                        let converted = original.convert_to(u.other());
                        let text = format_conversion_output(original, converted);
                        (Stage::Done, Action::Report(text))
                    },
                    None => (
                        stage,
                        Action::Retry(
                            String::from_str("Invalid temperature. Please enter a number."),
                        ),
                    ),
                }
            }
        },
        _ => (stage, Action::Idle),
    }
}

/// One step of the cycle on what happened at the prompt: a line read as typed
/// is trimmed and lower-cased first; a failed read ends a waiting cycle.
pub fn step(stage: Stage, event: Event) -> (r: (Stage, Action))
    ensures
        match event {
            Event::Line(line) => step_result(stage, lower_of(trim_of(line@)), r.0, r.1),
            Event::ReadFailed => if awaiting(stage) {
                r.0 == Stage::IoFailure && r.1 is Abort
            } else {
                r.0 == stage && r.1 is Idle
            },
        },
{
    match event {
        Event::Line(line) => {
            let cleaned = sanitize(line.as_str());
            step_line(stage, cleaned.as_str())
        },
        Event::ReadFailed => {
            if stage.is_awaiting() {
                (Stage::IoFailure, Action::Abort)
            } else {
                (stage, Action::Idle)
            }
        },
    }
}

} // verus!
