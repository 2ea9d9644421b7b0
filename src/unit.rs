use vstd::prelude::*;
use crate::text::{lower_of, lowercased, same_text};

verus! {

/// One of the two supported temperature scales.
#[derive(Debug, Clone, Copy, PartialEq, Eq, Structural)]
pub enum TemperatureUnit {
    Fahrenheit,
    Celcius,
}

/// The scale that a conversion from `u` goes to.
pub open spec fn opposite(u: TemperatureUnit) -> TemperatureUnit {
    match u {
        TemperatureUnit::Fahrenheit => TemperatureUnit::Celcius,
        TemperatureUnit::Celcius => TemperatureUnit::Fahrenheit,
    }
}

/// The scale that a lower-case token names: "f" or "fahrenheit", "c" or
/// "celcius"; no other token names one.
pub open spec fn unit_token(t: Seq<char>) -> Option<TemperatureUnit> {
    if t == seq!['f'] || t == seq!['f', 'a', 'h', 'r', 'e', 'n', 'h', 'e', 'i', 't'] {
        Some(TemperatureUnit::Fahrenheit)
    } else if t == seq!['c'] || t == seq!['c', 'e', 'l', 'c', 'i', 'u', 's'] {
        Some(TemperatureUnit::Celcius)
    } else {
        None
    }
}

/// The scale that an already lower-cased token names, if any.
pub fn unit_from_folded(token: &str) -> (r: Option<TemperatureUnit>)
    ensures
        r == unit_token(token@),
{
    proof {
        reveal_strlit("f");
        reveal_strlit("fahrenheit");
        reveal_strlit("c");
        reveal_strlit("celcius");
        assert("f"@ =~= seq!['f']);
        assert("fahrenheit"@ =~= seq!['f', 'a', 'h', 'r', 'e', 'n', 'h', 'e', 'i', 't']);
        assert("c"@ =~= seq!['c']);
        assert("celcius"@ =~= seq!['c', 'e', 'l', 'c', 'i', 'u', 's']);
    }
    if same_text(token, "f") || same_text(token, "fahrenheit") {
        Some(TemperatureUnit::Fahrenheit)
    } else if same_text(token, "c") || same_text(token, "celcius") {
        Some(TemperatureUnit::Celcius)
    } else {
        None
    }
}

/// The scale that a token names, in any case.
pub fn parse_unit(text: &str) -> (r: Option<TemperatureUnit>)
    ensures
        r == unit_token(lower_of(text@)),
{
    let folded = lowercased(text);
    unit_from_folded(folded.as_str())
}

impl TemperatureUnit {
    /// The scale that a conversion from `self` goes to.
    pub fn other(&self) -> (r: TemperatureUnit)
        ensures
            r == opposite(*self),
            r != *self,
    {
        match self {
            TemperatureUnit::Fahrenheit => TemperatureUnit::Celcius,
            TemperatureUnit::Celcius => TemperatureUnit::Fahrenheit,
        }
    }
}

/// The one-letter symbol of a scale.
pub open spec fn unit_symbol(u: TemperatureUnit) -> Seq<char> {
    match u {
        TemperatureUnit::Fahrenheit => seq!['F'],
        TemperatureUnit::Celcius => seq!['C'],
    }
}

impl TemperatureUnit {
    /// The one-letter symbol of this scale, "F" or "C".
    pub fn symbol(&self) -> (r: &'static str)
        ensures
            r@ == unit_symbol(*self),
    {
        proof {
            reveal_strlit("F");
            reveal_strlit("C");
        }
        match self {
            TemperatureUnit::Fahrenheit => "F",
            TemperatureUnit::Celcius => "C",
        }
    }
}

} // verus!
