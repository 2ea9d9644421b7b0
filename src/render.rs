use vstd::prelude::*;
use vstd::string::*;
use crate::temperature::Temperature;
use crate::unit::{TemperatureUnit, unit_symbol};

verus! {

/// The character of the decimal digit `d`.
pub open spec fn digit_char(d: nat) -> char {
    if d == 0 { '0' }
    else if d == 1 { '1' }
    else if d == 2 { '2' }
    else if d == 3 { '3' }
    else if d == 4 { '4' }
    else if d == 5 { '5' }
    else if d == 6 { '6' }
    else if d == 7 { '7' }
    else if d == 8 { '8' }
    else { '9' }
}

/// The decimal digits of `n`, without leading zeros ("0" for zero).
pub open spec fn digits_of(n: nat) -> Seq<char>
    decreases n,
{
    if n < 10 {
        seq![digit_char(n)]
    } else {
        digits_of(n / 10).push(digit_char(n % 10))
    }
}

/// `a / b` rounded to the nearest whole number, ties to the even one.
pub open spec fn round_half_even(a: nat, b: nat) -> nat {
    let q = a / b;
    let r = a % b;
    if 2 * r > b || (2 * r == b && q % 2 == 1) {
        q + 1
    } else {
        q
    }
}

/// `n / d` written with `tenths` one digit after the point, else none; a
/// negative value keeps its minus sign even where it rounds to zero.
pub open spec fn fixed_text(n: int, d: int, tenths: bool) -> Seq<char> {
    let sign = if n < 0 { seq!['-'] } else { Seq::<char>::empty() };
    let m = if n < 0 { -n } else { n };
    if tenths {
        let k = round_half_even((10 * m) as nat, d as nat);
        sign + digits_of(k / 10) + seq!['.'] + digits_of(k % 10)
    } else {
        sign + digits_of(round_half_even(m as nat, d as nat))
    }
}

/// `n / d` is a whole number.
pub open spec fn is_whole(n: int, d: int) -> bool {
    (if n < 0 { -n } else { n }) % d == 0
}

/// The equation that shows how `original` became `converted`. The formula
/// follows the original scale; both numbers carry one decimal when the
/// converted value is not whole, and none when it is, whatever the original.
pub open spec fn equation_text(original: Temperature, converted: Temperature) -> Seq<char> {
    let tenths = !is_whole(converted.num as int, converted.den as int);
    let o = fixed_text(original.num as int, original.den as int, tenths);
    let c = fixed_text(converted.num as int, converted.den as int, tenths);
    let tail = c + "°"@ + unit_symbol(converted.unit);
    match original.unit {
        TemperatureUnit::Fahrenheit => "\n("@ + o + "°"@ + unit_symbol(original.unit) + " - 32) * (5/9) = "@ + tail,
        TemperatureUnit::Celcius => "\n("@ + o + "°"@ + unit_symbol(original.unit) + " * 9/5) + 32 = "@ + tail,
    }
}

/// Numerator and denominator are small enough to be rendered.
pub open spec fn renderable(n: int, d: int) -> bool {
    0 < d <= 0x1000_0000_0000_0000_0000_0000_0000_0000 && -0x1000_0000_0000_0000_0000_0000_0000_0000
        <= n <= 0x1000_0000_0000_0000_0000_0000_0000_0000
}

fn digit_str(d: u128) -> (r: &'static str)
    requires
        d < 10,
    ensures
        r@ == seq![digit_char(d as nat)],
{
    proof {
        reveal_strlit("0");
        reveal_strlit("1");
        reveal_strlit("2");
        reveal_strlit("3");
        reveal_strlit("4");
        reveal_strlit("5");
        reveal_strlit("6");
        reveal_strlit("7");
        reveal_strlit("8");
        reveal_strlit("9");
    }
    if d == 0 { "0" }
    else if d == 1 { "1" }
    else if d == 2 { "2" }
    else if d == 3 { "3" }
    else if d == 4 { "4" }
    else if d == 5 { "5" }
    else if d == 6 { "6" }
    else if d == 7 { "7" }
    else if d == 8 { "8" }
    else { "9" }
}

/// The decimal digits of `n`.
pub fn decimal_text(n: u128) -> (r: String)
    ensures
        r@ == digits_of(n as nat),
    decreases n,
{
    if n < 10 {
        String::from_str(digit_str(n))
    } else {
        let mut s = decimal_text(n / 10);
        s.append(digit_str(n % 10));
        s
    }
}

/// `a / b` rounded to the nearest whole number, ties to the even one.
pub fn rounded_quotient(a: u128, b: u128) -> (r: u128)
    requires
        b > 0,
        a < 0xffff_ffff_ffff_ffff_ffff_ffff_ffff_ffff,
    ensures
        r as nat == round_half_even(a as nat, b as nat),
{
    let q = a / b;
    let rem = a % b;
    assert(q <= a) by (nonlinear_arith)
        requires
            b > 0,
            q == a / b,
    ;
    if rem > b - rem || (rem == b - rem && q % 2 == 1) {
        q + 1
    } else {
        q
    }
}

/// `num / den` written with one digit after the point when `tenths`, else as
/// a whole number, rounding half to even.
pub fn fixed_point_text(num: i128, den: i128, tenths: bool) -> (r: String)
    requires
        renderable(num as int, den as int),
    ensures
        r@ == fixed_text(num as int, den as int, tenths),
{
    let mut s = String::new();
    if num < 0 {
        s.append("-");
        proof {
            reveal_strlit("-");
        }
    }
    let m: u128 = if num < 0 { (-num) as u128 } else { num as u128 };
    let d = den as u128;
    if tenths {
        let k = rounded_quotient(10 * m, d);
        let whole = decimal_text(k / 10);
        s.append(whole.as_str());
        s.append(".");
        let frac = decimal_text(k % 10);
        s.append(frac.as_str());
        proof {
            reveal_strlit(".");
        }
    } else {
        let k = rounded_quotient(m, d);
        let whole = decimal_text(k);
        s.append(whole.as_str());
    }
    assert(s@ =~= fixed_text(num as int, den as int, tenths));
    s
}

/// Whether `num / den` is a whole number.
pub fn whole_value(num: i128, den: i128) -> (r: bool)
    requires
        renderable(num as int, den as int),
    ensures
        r == is_whole(num as int, den as int),
{
    let m: u128 = if num < 0 { (-num) as u128 } else { num as u128 };
    m % (den as u128) == 0
}

/// The equation that shows the conversion of `original` into `converted`,
/// starting with a line break.
pub fn format_conversion_output(original: Temperature, converted: Temperature) -> (r: String)
    requires
        renderable(original.num as int, original.den as int),
        renderable(converted.num as int, converted.den as int),
    ensures
        r@ == equation_text(original, converted),
{
    let tenths = !whole_value(converted.num, converted.den);
    let o = fixed_point_text(original.num, original.den, tenths);
    let c = fixed_point_text(converted.num, converted.den, tenths);
    let mut s = String::from_str("\n(");
    s.append(o.as_str());
    s.append("°");
    s.append(original.unit.symbol());
    match original.unit {
        TemperatureUnit::Fahrenheit => s.append(" - 32) * (5/9) = "),
        TemperatureUnit::Celcius => s.append(" * 9/5) + 32 = "),
    }
    s.append(c.as_str());
    s.append("°");
    s.append(converted.unit.symbol());
    assert(s@ =~= equation_text(original, converted));
    s
}

} // verus!
