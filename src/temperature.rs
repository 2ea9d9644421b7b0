use vstd::prelude::*;
use crate::unit::TemperatureUnit;

verus! {

/// Largest magnitude of numerator and denominator that a conversion accepts,
/// so that its arithmetic stays inside `i128`.
pub const MAGNITUDE_LIMIT: i128 = 1267650600228229401496703205376;

/// Fahrenheit to Celsius, `(v - 32) * 5/9`, on the fraction `n / d`.
pub open spec fn fahrenheit_to_celcius(n: int, d: int) -> (int, int) {
    ((n - 32 * d) * 5, 9 * d)
}

/// Celsius to Fahrenheit, `(v * 9/5) + 32`, on the fraction `n / d`.
pub open spec fn celcius_to_fahrenheit(n: int, d: int) -> (int, int) {
    (n * 9 + 160 * d, 5 * d)
}

/// The fraction that `n / d` on scale `from` becomes on scale `to`.
pub open spec fn converted(n: int, d: int, from: TemperatureUnit, to: TemperatureUnit) -> (int, int) {
    match (from, to) {
        (TemperatureUnit::Fahrenheit, TemperatureUnit::Celcius) => fahrenheit_to_celcius(n, d),
        (TemperatureUnit::Celcius, TemperatureUnit::Fahrenheit) => celcius_to_fahrenheit(n, d),
        _ => (n, d),
    }
}

/// `t` on the scale `target`, as `convert_to` gives it.
pub open spec fn converted_temperature(t: Temperature, target: TemperatureUnit) -> Temperature {
    let c = converted(t.num as int, t.den as int, t.unit, target);
    Temperature { num: c.0 as i128, den: c.1 as i128, unit: target }
}

/// `n1 / d1` and `n2 / d2` are the same number (both denominators positive).
pub open spec fn same_value(n1: int, d1: int, n2: int, d2: int) -> bool {
    n1 * d2 == n2 * d1
}

/// A temperature held exactly as the fraction `num / den` on the scale `unit`.
#[derive(Debug, Clone, Copy, PartialEq, Eq, Structural)]
pub struct Temperature {
    pub num: i128,
    pub den: i128,
    pub unit: TemperatureUnit,
}

impl Temperature {
    /// A denominator is positive.
    pub open spec fn wf(&self) -> bool {
        self.den > 0
    }

    /// Numerator and denominator are small enough for a conversion.
    pub open spec fn convertible(&self) -> bool {
        &&& self.wf()
        &&& -MAGNITUDE_LIMIT <= self.num <= MAGNITUDE_LIMIT
        &&& self.den <= MAGNITUDE_LIMIT
    }

    pub fn new(num: i128, den: i128, unit: TemperatureUnit) -> (r: Temperature)
        requires
            den > 0,
        ensures
            r == (Temperature { num, den, unit }),
            r.wf(),
    {
        Temperature { num, den, unit }
    }

    /// The same temperature on the Celsius scale, reading `self` as Fahrenheit.
    pub fn to_celcius(&self) -> (r: Temperature)
        requires
            self.convertible(),
        ensures
            (r.num as int, r.den as int) == fahrenheit_to_celcius(self.num as int, self.den as int),
            r.unit == TemperatureUnit::Celcius,
            r.wf(),
    {
        let n = (self.num - 32 * self.den) * 5;
        Temperature::new(n, 9 * self.den, TemperatureUnit::Celcius)
    }

    /// The same temperature on the Fahrenheit scale, reading `self` as Celsius.
    pub fn to_fahrenheit(&self) -> (r: Temperature)
        requires
            self.convertible(),
        ensures
            (r.num as int, r.den as int) == celcius_to_fahrenheit(self.num as int, self.den as int),
            r.unit == TemperatureUnit::Fahrenheit,
            r.wf(),
    {
        let n = self.num * 9 + 160 * self.den;
        Temperature::new(n, 5 * self.den, TemperatureUnit::Fahrenheit)
    }

    /// This temperature on the scale `target`; unchanged when it is already there.
    pub fn convert_to(&self, target: TemperatureUnit) -> (r: Temperature)
        requires
            self.convertible(),
        ensures
            (r.num as int, r.den as int) == converted(
                self.num as int,
                self.den as int,
                self.unit,
                target,
            ),
            r.unit == target,
            r == converted_temperature(*self, target),
            r.wf(),
            self.unit == target ==> r == *self,
    {
        match (self.unit, target) {
            (TemperatureUnit::Fahrenheit, TemperatureUnit::Celcius) => self.to_celcius(),
            (TemperatureUnit::Celcius, TemperatureUnit::Fahrenheit) => self.to_fahrenheit(),
            _ => *self,
        }
    }
}

/// Converting from Fahrenheit to Celsius and back gives the starting value again.
pub proof fn lemma_fahrenheit_round_trip(n: int, d: int)
    requires
        d > 0,
    ensures
        ({
            let c = converted(n, d, TemperatureUnit::Fahrenheit, TemperatureUnit::Celcius);
            let f = converted(c.0, c.1, TemperatureUnit::Celcius, TemperatureUnit::Fahrenheit);
            f.1 > 0 && same_value(f.0, f.1, n, d)
        }),
{
    assert(((n - 32 * d) * 5 * 9 + 160 * (9 * d)) * d == n * (5 * (9 * d))) by (nonlinear_arith);
    assert(5 * (9 * d) > 0) by (nonlinear_arith)
        requires
            d > 0,
    ;
}

/// Converting from Celsius to Fahrenheit and back gives the starting value again.
pub proof fn lemma_celcius_round_trip(n: int, d: int)
    requires
        d > 0,
    ensures
        ({
            let f = converted(n, d, TemperatureUnit::Celcius, TemperatureUnit::Fahrenheit);
            let c = converted(f.0, f.1, TemperatureUnit::Fahrenheit, TemperatureUnit::Celcius);
            c.1 > 0 && same_value(c.0, c.1, n, d)
        }),
{
    assert((((n * 9 + 160 * d) - 32 * (5 * d)) * 5) * d == n * (9 * (5 * d))) by (nonlinear_arith);
    assert(9 * (5 * d) > 0) by (nonlinear_arith)
        requires
            d > 0,
    ;
}

} // verus!
