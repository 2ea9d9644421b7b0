use vstd::prelude::*;
use vstd::string::*;

verus! {

/// What `str::trim` leaves of a text.
pub uninterp spec fn trim_of(s: Seq<char>) -> Seq<char>;

/// What `str::to_lowercase` makes of a text.
pub uninterp spec fn lower_of(s: Seq<char>) -> Seq<char>;

/// Relies on `str::trim`: the text without its leading and trailing white space.
#[verifier::external_body]
fn trimmed<'a>(s: &'a str) -> (r: &'a str)
    ensures
        r@ == trim_of(s@),
{
    s.trim()
}

/// Relies on `str::to_lowercase`: the lower-case form of the text.
#[verifier::external_body]
pub(crate) fn lowercased(s: &str) -> (r: String)
    ensures
        r@ == lower_of(s@),
{
    s.to_lowercase()
}

/// A line as the prompts read it: trimmed, then lower-cased.
pub fn sanitize(line: &str) -> (r: String)
    ensures
        r@ == lower_of(trim_of(line@)),
{
    lowercased(trimmed(line))
}

/// The characters of a text, in order.
pub fn chars_of(s: &str) -> (r: Vec<char>)
    ensures
        r@ == s@,
{
    let n = s.unicode_len();
    let mut v: Vec<char> = Vec::new();
    let mut i: usize = 0;
    while i < n
        invariant
            n == s@.len(),
            i <= n,
            v@ == s@.take(i as int),
        decreases n - i,
    {
        v.push(s.get_char(i));
        i = i + 1;
        assert(v@ =~= s@.take(i as int));
    }
    assert(v@ =~= s@);
    v
}

/// Two texts hold the same characters.
pub fn same_text(a: &str, b: &str) -> (r: bool)
    ensures
        r == (a@ == b@),
{
    let x = chars_of(a);
    let y = chars_of(b);
    if x.len() != y.len() {
        assert(x@.len() != y@.len());
        return false;
    }
    let mut i: usize = 0;
    while i < x.len()
        invariant
            x.len() == y.len(),
            x@ == a@,
            y@ == b@,
            i <= x.len(),
            forall|k: int| 0 <= k < i ==> x@[k] == y@[k],
        decreases x.len() - i,
    {
        if x[i] != y[i] {
            assert(x@[i as int] != y@[i as int]);
            return false;
        }
        i = i + 1;
    }
    assert(x@ =~= y@);
    true
}

/// Most digits that a number may have.
pub const MAX_DIGITS: usize = 18;

/// `10` to the power `MAX_DIGITS`: every parsed numerator stays below it.
pub const DIGIT_LIMIT: i128 = 1_000_000_000_000_000_000;

pub open spec fn is_digit(c: char) -> bool {
    '0' <= c <= '9'
}

pub open spec fn digit_value(c: char) -> nat {
    (c as int - '0' as int) as nat
}

pub open spec fn all_digits(s: Seq<char>) -> bool {
    forall|i: int| 0 <= i < s.len() ==> is_digit(#[trigger] s[i])
}

/// The number that a run of decimal digits writes.
pub open spec fn digits_value(s: Seq<char>) -> nat
    decreases s.len(),
{
    if s.len() == 0 {
        0
    } else {
        digits_value(s.drop_last()) * 10 + digit_value(s.last())
    }
}

pub open spec fn pow10(k: nat) -> nat
    decreases k,
{
    if k == 0 { 1 } else { 10 * pow10((k - 1) as nat) }
}

/// The text starts with a sign.
pub open spec fn has_sign(s: Seq<char>) -> bool {
    s.len() > 0 && (s[0] == '+' || s[0] == '-')
}

pub open spec fn unsigned_part(s: Seq<char>) -> Seq<char> {
    if has_sign(s) { s.drop_first() } else { s }
}

/// Where the first decimal point stands, or the length if there is none.
pub open spec fn point_index(b: Seq<char>) -> int
    decreases b.len(),
{
    if b.len() == 0 {
        0
    } else if b[0] == '.' {
        0
    } else {
        1 + point_index(b.drop_first())
    }
}

pub open spec fn whole_digits(b: Seq<char>) -> Seq<char> {
    b.take(point_index(b))
}

pub open spec fn fraction_digits(b: Seq<char>) -> Seq<char> {
    if point_index(b) < b.len() { b.skip(point_index(b) + 1) } else { Seq::empty() }
}

/// Where the first exponent mark `e` or `E` stands, or the length if there is none.
pub open spec fn exponent_index(b: Seq<char>) -> int
    decreases b.len(),
{
    if b.len() == 0 {
        0
    } else if b[0] == 'e' || b[0] == 'E' {
        0
    } else {
        1 + exponent_index(b.drop_first())
    }
}

/// Most digits that an exponent may have.
pub const MAX_EXPONENT_DIGITS: usize = 4;

/// The digits of a mantissa read without its point, and how many of them
/// follow the point: digits with at most one point, one digit at least and at
/// most `MAX_DIGITS`.
pub open spec fn mantissa_of(b: Seq<char>) -> Option<(nat, nat)> {
    let w = whole_digits(b);
    let f = fraction_digits(b);
    if all_digits(w) && all_digits(f) && 1 <= w.len() + f.len() <= MAX_DIGITS {
        Some((digits_value(w + f), f.len()))
    } else {
        None
    }
}

/// The power of ten that an exponent writes: an optional sign, then one to
/// `MAX_EXPONENT_DIGITS` digits.
pub open spec fn exponent_of(t: Seq<char>) -> Option<int> {
    let u = unsigned_part(t);
    if all_digits(u) && 1 <= u.len() <= MAX_EXPONENT_DIGITS {
        Some(if t[0] == '-' { -(digits_value(u) as int) } else { digits_value(u) as int })
    } else {
        None
    }
}

/// `m / 10^k * 10^e` as a fraction whose denominator is a power of ten.
pub open spec fn scaled(m: nat, k: nat, e: int) -> (int, int) {
    let p = e - k;
    if p >= 0 {
        ((m * pow10(p as nat)) as int, 1)
    } else {
        (m as int, pow10((-p) as nat) as int)
    }
}

/// The fraction `(num, den)` that a decimal number writes: an optional sign,
/// a mantissa (see `mantissa_of`) and an optional exponent (`e` or `E`, see
/// `exponent_of`), where the numerator stays below `DIGIT_LIMIT` and the
/// denominator does not pass it; `None` for any other text.
pub open spec fn decimal_value(s: Seq<char>) -> Option<(int, int)> {
    let b = unsigned_part(s);
    let x = exponent_index(b);
    let e = if x < b.len() { exponent_of(b.skip(x + 1)) } else { Some(0int) };
    match (mantissa_of(b.take(x)), e) {
        (Some((m, k)), Some(e)) => {
            let (n, d) = scaled(m, k, e);
            if n < DIGIT_LIMIT && d <= DIGIT_LIMIT {
                Some((if s[0] == '-' { -n } else { n }, d))
            } else {
                None
            }
        },
        _ => None,
    }
}

proof fn lemma_exponent_index(b: Seq<char>, j: int)
    requires
        0 <= j <= b.len(),
        forall|k: int| 0 <= k < j ==> b[k] != 'e' && b[k] != 'E',
        j == b.len() || b[j] == 'e' || b[j] == 'E',
    ensures
        exponent_index(b) == j,
    decreases j,
{
    if j > 0 {
        lemma_exponent_index(b.drop_first(), j - 1);
    }
}

proof fn lemma_pow10_past_limit(k: nat)
    requires
        k > MAX_DIGITS,
    ensures
        pow10(k) > DIGIT_LIMIT,
{
    reveal_with_fuel(pow10, 20);
    lemma_pow10_monotone((MAX_DIGITS + 1) as nat, k);
}

proof fn lemma_point_index(b: Seq<char>, j: int)
    requires
        0 <= j <= b.len(),
        forall|k: int| 0 <= k < j ==> b[k] != '.',
        j == b.len() || b[j] == '.',
    ensures
        point_index(b) == j,
    decreases j,
{
    if j > 0 {
        lemma_point_index(b.drop_first(), j - 1);
    }
}

proof fn lemma_pow10_monotone(a: nat, b: nat)
    requires
        a <= b,
    ensures
        pow10(a) <= pow10(b),
    decreases b,
{
    lemma_pow10_positive(b);
    if a < b {
        lemma_pow10_monotone(a, (b - 1) as nat);
    }
}

proof fn lemma_pow10_digit_limit(k: nat)
    requires
        k <= MAX_DIGITS,
    ensures
        pow10(k) <= 1_000_000_000_000_000_000,
{
    reveal_with_fuel(pow10, 19);
    lemma_pow10_monotone(k, MAX_DIGITS as nat);
}

proof fn lemma_pow10_positive(k: nat)
    ensures
        pow10(k) >= 1,
    decreases k,
{
    if k > 0 {
        lemma_pow10_positive((k - 1) as nat);
    }
}

/// `10` to the power `k`.
pub fn power_of_ten(k: u32) -> (r: i128)
    requires
        k <= MAX_DIGITS,
    ensures
        r == pow10(k as nat),
{
    let mut r: i128 = 1;
    let mut i: u32 = 0;
    while i < k
        invariant
            i <= k <= MAX_DIGITS,
            r == pow10(i as nat),
        decreases k - i,
    {
        proof {
            lemma_pow10_digit_limit(i as nat);
        }
        r = r * 10;
        i = i + 1;
    }
    r
}

/// The mantissa that stands in `s` from `lo` to `hi` (see `mantissa_of`).
fn mantissa_value(s: &Vec<char>, lo: usize, hi: usize) -> (r: Option<(i128, usize)>)
    requires
        lo <= hi <= s@.len(),
    ensures
        match r {
            Some((m, k)) => mantissa_of(s@.subrange(lo as int, hi as int)) == Some((m as nat, k as nat))
                && 0 <= m < DIGIT_LIMIT && k <= MAX_DIGITS,
            None => mantissa_of(s@.subrange(lo as int, hi as int)) is None,
        },
{
    let ghost b = s@.subrange(lo as int, hi as int);
    let mut p: usize = lo;
    while p < hi && s[p] != '.'
        invariant
            lo <= p <= hi,
            hi <= s@.len(),
            b == s@.subrange(lo as int, hi as int),
            forall|k: int| lo <= k < p ==> s@[k] != '.',
        decreases hi - p,
    {
        p = p + 1;
    }
    proof {
        lemma_point_index(b, p - lo);
    }
    let ghost w = whole_digits(b);
    let ghost f = fraction_digits(b);
    assert(w =~= s@.subrange(lo as int, p as int));
    let frac_start: usize = if p < hi { p + 1 } else { hi };
    assert(f =~= s@.subrange(frac_start as int, hi as int));
    let count = (p - lo) + (hi - frac_start);
    assert(count == w.len() + f.len());
    if count < 1 || count > MAX_DIGITS {
        return None;
    }
    let mut m: i128 = 0;
    let mut i: usize = lo;
    let ghost mut seen: Seq<char> = Seq::empty();
    while i < hi
        invariant
            lo <= p <= hi,
            frac_start == if p < hi { p + 1 } else { hi as int },
            hi <= s@.len(),
            b == s@.subrange(lo as int, hi as int),
            w == whole_digits(b),
            f == fraction_digits(b),
            w == s@.subrange(lo as int, p as int),
            f == s@.subrange(frac_start as int, hi as int),
            count == w.len() + f.len(),
            count <= MAX_DIGITS,
            lo <= i <= hi,
            i <= p || frac_start <= i,
            i <= p ==> seen == w.take(i - lo),
            frac_start <= i ==> seen == w + f.take(i - frac_start),
            all_digits(seen),
            m == digits_value(seen),
            m < pow10(seen.len()),
            seen.len() <= count,
        decreases hi - i,
    {
        if i == p {
            i = frac_start;
            assert(seen =~= w + f.take(0));
        } else {
            let c = s[i];
            if !('0' <= c && c <= '9') {
                proof {
                    if i < p {
                        assert(w[i - lo] == c);
                        assert(!all_digits(w));
                    } else {
                        assert(f[i - frac_start] == c);
                        assert(!all_digits(f));
                    }
                }
                return None;
            }
            let ghost old_seen = seen;
            proof {
                seen = seen.push(c);
                assert(seen.drop_last() =~= old_seen);
                if i < p {
                    assert(seen =~= w.take(i + 1 - lo));
                } else {
                    assert(seen =~= w + f.take(i + 1 - frac_start));
                }
                assert(m * 10 + digit_value(c) < pow10(seen.len())) by (nonlinear_arith)
                    requires
                        m < pow10(old_seen.len()),
                        digit_value(c) < 10,
                        pow10(seen.len()) == 10 * pow10(old_seen.len()),
                ;
                lemma_pow10_digit_limit(seen.len());
            }
            m = m * 10 + (c as i128 - '0' as i128);
            i = i + 1;
        }
    }
    proof {
        if p == hi {
            assert(f.len() == 0);
            assert(w.take(hi - lo) =~= w);
            assert(seen =~= w + f);
        } else {
            assert(f.take(hi - frac_start) =~= f);
            assert(seen =~= w + f);
        }
        assert forall|k: int| 0 <= k < w.len() implies is_digit(#[trigger] w[k]) by {
            assert(w[k] == seen[k]);
        }
        assert forall|k: int| 0 <= k < f.len() implies is_digit(#[trigger] f[k]) by {
            assert(f[k] == seen[w.len() + k]);
        }
        lemma_pow10_digit_limit(seen.len());
    }
    Some((m, hi - frac_start))
}

/// The exponent that stands in `s` from `lo` to `hi` (see `exponent_of`).
fn exponent_value(s: &Vec<char>, lo: usize, hi: usize) -> (r: Option<i64>)
    requires
        lo <= hi <= s@.len(),
    ensures
        match r {
            Some(e) => exponent_of(s@.subrange(lo as int, hi as int)) == Some(e as int) && -10000 < e
                < 10000,
            None => exponent_of(s@.subrange(lo as int, hi as int)) is None,
        },
{
    let ghost t = s@.subrange(lo as int, hi as int);
    let signed = lo < hi && (s[lo] == '+' || s[lo] == '-');
    let start: usize = if signed { lo + 1 } else { lo };
    let ghost u = unsigned_part(t);
    assert(u =~= s@.subrange(start as int, hi as int));
    if hi - start < 1 || hi - start > MAX_EXPONENT_DIGITS {
        return None;
    }
    let mut v: i64 = 0;
    let mut i: usize = start;
    while i < hi
        invariant
            start <= i <= hi <= s@.len(),
            hi - start <= MAX_EXPONENT_DIGITS,
            t == s@.subrange(lo as int, hi as int),
            u == unsigned_part(t),
            u == s@.subrange(start as int, hi as int),
            all_digits(u.take(i - start)),
            v == digits_value(u.take(i - start)),
            v < pow10((i - start) as nat),
        decreases hi - i,
    {
        let c = s[i];
        if !('0' <= c && c <= '9') {
            assert(u[i - start] == c);
            assert(!all_digits(u));
            return None;
        }
        proof {
            let prev = u.take(i - start);
            let next = u.take(i + 1 - start);
            assert(next.drop_last() =~= prev);
            assert(next.last() == c);
            assert(pow10((i + 1 - start) as nat) == 10 * pow10((i - start) as nat));
            assert(v * 10 + digit_value(c) < pow10((i + 1 - start) as nat)) by (nonlinear_arith)
                requires
                    v < pow10((i - start) as nat),
                    digit_value(c) < 10,
                    pow10((i + 1 - start) as nat) == 10 * pow10((i - start) as nat),
            ;
            reveal_with_fuel(pow10, 5);
            lemma_pow10_monotone((i + 1 - start) as nat, MAX_EXPONENT_DIGITS as nat);
            assert forall|k: int| 0 <= k < next.len() implies is_digit(#[trigger] next[k]) by {
                if k < prev.len() {
                    assert(next[k] == prev[k]);
                }
            }
        }
        v = v * 10 + (c as i64 - '0' as i64);
        i = i + 1;
    }
    proof {
        assert(u.take(hi - start) =~= u);
        reveal_with_fuel(pow10, 5);
        lemma_pow10_monotone((hi - start) as nat, MAX_EXPONENT_DIGITS as nat);
    }
    Some(if signed && s[lo] == '-' { -v } else { v })
}

/// The fraction that a decimal number writes (see `decimal_value`).
pub fn parse_value(text: &str) -> (r: Option<(i128, i128)>)
    ensures
        match r {
            Some((n, d)) => decimal_value(text@) == Some((n as int, d as int)),
            None => decimal_value(text@) is None,
        },
        r matches Some((n, d)) ==> -DIGIT_LIMIT < n < DIGIT_LIMIT && 1 <= d <= DIGIT_LIMIT,
{
    let s = chars_of(text);
    let n = s.len();
    let ghost b = unsigned_part(s@);
    let signed = n > 0 && (s[0] == '+' || s[0] == '-');
    let start: usize = if signed { 1 } else { 0 };
    assert(b =~= s@.skip(start as int));
    let mut x: usize = start;
    while x < n && s[x] != 'e' && s[x] != 'E'
        invariant
            start <= x <= n,
            n == s@.len(),
            b == s@.skip(start as int),
            forall|k: int| start <= k < x ==> s@[k] != 'e' && s@[k] != 'E',
        decreases n - x,
    {
        x = x + 1;
    }
    proof {
        lemma_exponent_index(b, x - start);
    }
    assert(b.take(x - start) =~= s@.subrange(start as int, x as int));
    let e: i64 = if x < n {
        assert(b.skip(x - start + 1) =~= s@.subrange(x + 1, n as int));
        match exponent_value(&s, x + 1, n) {
            Some(e) => e,
            None => {
                return None;
            },
        }
    } else {
        0
    };
    let (m, k) = match mantissa_value(&s, start, x) {
        Some(mk) => mk,
        None => {
            return None;
        },
    };
    let p: i64 = e - k as i64;
    let num: i128;
    let den: i128;
    if p >= 0 {
        if m == 0 {
            num = 0;
            den = 1;
            assert(m as nat * pow10(p as nat) == 0);
        } else if p > MAX_DIGITS as i64 {
            proof {
                lemma_pow10_past_limit(p as nat);
                assert(m * pow10(p as nat) >= pow10(p as nat)) by (nonlinear_arith)
                    requires
                        m >= 1,
                ;
            }
            return None;
        } else {
            let t = power_of_ten(p as u32);
            proof {
                lemma_pow10_digit_limit(p as nat);
                assert(m * t <= DIGIT_LIMIT * DIGIT_LIMIT) by (nonlinear_arith)
                    requires
                        0 <= m < DIGIT_LIMIT,
                        0 <= t <= DIGIT_LIMIT,
                ;
            }
            let scaled_num = m * t;
            if scaled_num >= DIGIT_LIMIT {
                return None;
            }
            num = scaled_num;
            den = 1;
            assert(scaled(m as nat, k as nat, e as int) == (num as int, den as int));
        }
    } else {
        if -p > MAX_DIGITS as i64 {
            proof {
                lemma_pow10_past_limit((-p) as nat);
            }
            return None;
        }
        num = m;
        den = power_of_ten((-p) as u32);
        assert(scaled(m as nat, k as nat, e as int) == (num as int, den as int));
        proof {
            lemma_pow10_positive((-p) as nat);
            lemma_pow10_digit_limit((-p) as nat);
        }
    }
    proof {
        assert(exponent_index(b) == x - start);
        assert(mantissa_of(b.take(x - start)) == Some((m as nat, k as nat)));
        if x < n {
            assert(exponent_of(b.skip(x - start + 1)) == Some(e as int));
        }
        assert(scaled(m as nat, k as nat, e as int) == (num as int, den as int));
    }
    let v = if signed && s[0] == '-' { -num } else { num };
    Some((v, den))
}

} // verus!
