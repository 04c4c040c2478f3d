//! Exact decimal amounts with at most four fractional places.
//!
//! An [`Amount`] counts ten-thousandths of a unit. Every amount is a value
//! that a `rust_decimal::Decimal` can hold exactly: some mantissa of at most
//! 96 bits, at some scale, gives it.

use vstd::prelude::*;

verus! {

/// Largest mantissa of a decimal: 2^96 - 1.
pub const MAX_MANTISSA: u128 = 79228162514264337593543950335u128;

/// Ten-thousandths in one unit.
pub const UNITS_PER_WHOLE: u128 = 10000u128;

/// `10^n`.
pub open spec fn pow10(n: nat) -> int
    decreases n,
{
    if n == 0 {
        1
    } else {
        10 * pow10((n - 1) as nat)
    }
}

/// The absolute value of `x`.
pub open spec fn magnitude(x: int) -> int {
    if x < 0 {
        -x
    } else {
        x
    }
}

/// A nonnegative count `a` of ten-thousandths has a decimal representation:
/// dropping up to four trailing zero digits leaves a mantissa of 96 bits.
pub open spec fn magnitude_fits(a: int) -> bool {
    ||| a <= MAX_MANTISSA
    ||| a % 10 == 0 && a / 10 <= MAX_MANTISSA
    ||| a % 100 == 0 && a / 100 <= MAX_MANTISSA
    ||| a % 1000 == 0 && a / 1000 <= MAX_MANTISSA
    ||| a % 10000 == 0 && a / 10000 <= MAX_MANTISSA
}

/// `units` ten-thousandths is a value that a decimal holds exactly.
pub open spec fn representable(units: int) -> bool {
    magnitude_fits(magnitude(units))
}

/// The value `mantissa / 10^scale` counted in ten-thousandths, where that
/// count is a whole number.
pub open spec fn exact_units(mantissa: int, scale: nat) -> Option<int> {
    if scale <= 4 {
        Some(mantissa * pow10((4 - scale) as nat))
    } else if mantissa % pow10((scale - 4) as nat) == 0 {
        Some(mantissa / pow10((scale - 4) as nat))
    } else {
        None
    }
}

/// A decimal number given by its parts: `mantissa / 10^scale`.
#[derive(Clone, Copy, Debug, PartialEq, Eq, Structural)]
pub struct DecimalValue {
    pub mantissa: i128,
    pub scale: u32,
}

/// The amount, in ten-thousandths, that a deposit or withdrawal of `d` moves:
/// defined when `d` is not negative, has at most four fractional places and
/// its value is a decimal.
pub open spec fn funding_units(d: DecimalValue) -> Option<int> {
    if d.mantissa < 0 {
        None
    } else {
        match exact_units(d.mantissa as int, d.scale as nat) {
            Some(u) => if representable(u) {
                Some(u)
            } else {
                None
            },
            None => None,
        }
    }
}

/// Deposits and withdrawals never move a negative amount.
pub proof fn lemma_funding_units_nonnegative(d: DecimalValue)
    ensures
        funding_units(d) matches Some(x) ==> x >= 0,
{
    if d.mantissa >= 0 {
        let m = d.mantissa as int;
        if d.scale <= 4 {
            let p = pow10((4 - d.scale) as nat);
            lemma_pow10_positive((4 - d.scale) as nat);
            assert(m * p >= 0) by (nonlinear_arith)
                requires
                    m >= 0,
                    p >= 1,
            ;
        } else {
            let p = pow10((d.scale - 4) as nat);
            lemma_pow10_positive((d.scale - 4) as nat);
            assert(m / p >= 0) by (nonlinear_arith)
                requires
                    m >= 0,
                    p >= 1,
            ;
        }
    }
}

pub proof fn lemma_pow10_positive(n: nat)
    ensures
        pow10(n) >= 1,
    decreases n,
{
    if n > 0 {
        lemma_pow10_positive((n - 1) as nat);
    }
}

pub proof fn lemma_pow10_monotonic(i: nat, j: nat)
    requires
        i <= j,
    ensures
        pow10(i) <= pow10(j),
    decreases j,
{
    if i < j {
        lemma_pow10_monotonic(i, (j - 1) as nat);
        lemma_pow10_positive((j - 1) as nat);
    }
}

proof fn lemma_pow10_values()
    ensures
        pow10(0) == 1,
        pow10(1) == 10,
        pow10(2) == 100,
        pow10(3) == 1000,
        pow10(4) == 10000,
        pow10(38) == 100000000000000000000000000000000000000int,
        pow10(39) == 1000000000000000000000000000000000000000int,
{
    reveal_with_fuel(pow10, 40);
}

/// A representable count is at most `MAX_MANTISSA * 10^4` in magnitude.
proof fn lemma_representable_bound(units: int)
    requires
        representable(units),
    ensures
        magnitude(units) <= MAX_MANTISSA * 10000,
{
    let a = magnitude(units);
    assert(a % 10 == 0 ==> a == 10 * (a / 10));
    assert(a % 100 == 0 ==> a == 100 * (a / 100));
    assert(a % 1000 == 0 ==> a == 1000 * (a / 1000));
    assert(a % 10000 == 0 ==> a == 10000 * (a / 10000));
}

/// `10^n` as a machine integer.
fn pow10_u128(n: u32) -> (r: u128)
    requires
        n <= 38,
    ensures
        r == pow10(n as nat),
{
    proof {
        lemma_pow10_values();
    }
    let mut r: u128 = 1;
    let mut i: u32 = 0;
    while i < n
        invariant
            i <= n <= 38,
            r == pow10(i as nat),
            pow10(38) == 100000000000000000000000000000000000000int,
        decreases n - i,
    {
        proof {
            lemma_pow10_monotonic((i + 1) as nat, 38);
        }
        r = r * 10;
        i = i + 1;
    }
    r
}

/// Whether a nonnegative count of ten-thousandths has a decimal representation.
fn magnitude_fits_exec(a: u128) -> (r: bool)
    ensures
        r == magnitude_fits(a as int),
{
    a <= MAX_MANTISSA || (a % 10 == 0 && a / 10 <= MAX_MANTISSA) || (a % 100 == 0 && a / 100
        <= MAX_MANTISSA) || (a % 1000 == 0 && a / 1000 <= MAX_MANTISSA) || (a % 10000 == 0 && a
        / 10000 <= MAX_MANTISSA)
}

/// The magnitude of `u` as an unsigned integer.
fn magnitude_of(u: i128) -> (r: u128)
    ensures
        r == magnitude(u as int),
{
    if u >= 0 {
        u as u128
    } else {
        (-(u + 1)) as u128 + 1
    }
}

/// Whether `u` ten-thousandths is a value that a decimal holds exactly.
pub fn is_representable(u: i128) -> (r: bool)
    ensures
        r == representable(u as int),
{
    magnitude_fits_exec(magnitude_of(u))
}

/// An exact decimal amount, counted in ten-thousandths of a unit, that a
/// decimal can hold.
#[derive(Clone, Copy, Debug)]
pub struct Amount {
    units: i128,
}

impl Amount {
    /// Every amount is a value that a decimal holds exactly.
    #[verifier::type_invariant]
    pub closed spec fn inv(self) -> bool {
        representable(self.units as int)
    }

    /// What the type invariant of an amount says.
    pub proof fn lemma_inv(self)
        requires
            self.inv(),
        ensures
            representable(self@),
    {
    }

    /// The amount in ten-thousandths.
    pub closed spec fn value(self) -> int {
        self.units as int
    }

    /// The amount zero.
    pub fn zero() -> (r: Amount)
        ensures
            r@ == 0,
    {
        Amount { units: 0 }
    }

    /// The amount of `units` ten-thousandths, where a decimal holds that value.
    pub fn from_units(units: i128) -> (r: Option<Amount>)
        ensures
            r is Some <==> representable(units as int),
            r matches Some(a) ==> a@ == units,
    {
        if is_representable(units) {
            Some(Amount { units })
        } else {
            None
        }
    }

    /// The count of ten-thousandths.
    pub fn units(&self) -> (r: i128)
        ensures
            r == self@,
    {
        self.units
    }

    /// The sum, where a decimal holds it.
    pub fn checked_add(self, other: Amount) -> (r: Option<Amount>)
        ensures
            r is Some <==> representable(self@ + other@),
            r matches Some(s) ==> s@ == self@ + other@,
    {
        proof {
            use_type_invariant(&self);
            use_type_invariant(&other);
            lemma_representable_bound(self.units as int);
            lemma_representable_bound(other.units as int);
        }
        Amount::from_units(self.units + other.units)
    }

    /// The difference, where a decimal holds it.
    pub fn checked_sub(self, other: Amount) -> (r: Option<Amount>)
        ensures
            r is Some <==> representable(self@ - other@),
            r matches Some(s) ==> s@ == self@ - other@,
    {
        proof {
            use_type_invariant(&self);
            use_type_invariant(&other);
            lemma_representable_bound(self.units as int);
            lemma_representable_bound(other.units as int);
        }
        Amount::from_units(self.units - other.units)
    }

    /// Whether the amount is below zero.
    pub fn is_negative(&self) -> (r: bool)
        ensures
            r == (self@ < 0),
    {
        self.units < 0
    }

    /// Whether `self` is at least `other`.
    pub fn at_least(&self, other: &Amount) -> (r: bool)
        ensures
            r == (self@ >= other@),
    {
        self.units >= other.units
    }

    /// The amount that a deposit or withdrawal of `d` moves: `None` where `d`
    /// is negative, has more than four fractional places, or names a value that
    /// a decimal cannot hold.
    pub fn from_funding(d: DecimalValue) -> (r: Option<Amount>)
        ensures
            r is Some <==> funding_units(d) is Some,
            r matches Some(a) ==> funding_units(d) == Some(a@),
    {
        proof {
            lemma_pow10_values();
        }
        if d.mantissa < 0 {
            return None;
        }
        let m: u128 = d.mantissa as u128;
        if d.scale <= 4 {
            let p = pow10_u128(4 - d.scale);
            proof {
                lemma_pow10_monotonic((4 - d.scale) as nat, 4);
                lemma_pow10_positive((4 - d.scale) as nat);
            }
            if m > MAX_MANTISSA * UNITS_PER_WHOLE {
                proof {
                    assert(m * p >= m) by (nonlinear_arith)
                        requires
                            p >= 1,
                            m >= 0,
                    ;
                    if representable(m * p) {
                        lemma_representable_bound(m * p);
                    }
                }
                return None;
            }
            assert(m * p <= MAX_MANTISSA * UNITS_PER_WHOLE * 10000) by (nonlinear_arith)
                requires
                    p <= 10000,
                    m <= MAX_MANTISSA * UNITS_PER_WHOLE,
            ;
            let u = (m * p) as i128;
            Amount::from_units(u)
        } else {
            let n = d.scale - 4;
            if n > 38 {
                proof {
                    lemma_pow10_monotonic(39, n as nat);
                    lemma_small_mod_pow(m as int, n as nat);
                }
                if m == 0 {
                    proof {
                        lemma_zero_div_pow(n as nat);
                    }
                    return Amount::from_units(0);
                }
                return None;
            }
            let p = pow10_u128(n);
            proof {
                lemma_pow10_positive(n as nat);
            }
            if m % p != 0 {
                return None;
            }
            assert(m / p <= m) by (nonlinear_arith)
                requires
                    p >= 1,
                    m >= 0,
            ;
            Amount::from_units((m / p) as i128)
        }
    }

    /// The amount as a decimal's parts, `(mantissa, scale)`, with the least
    /// scale: `mantissa / 10^scale` is the amount, the scale is at most four,
    /// the mantissa takes at most 96 bits, and it ends in no zero digit where
    /// the scale is above zero.
    pub fn to_decimal_parts(&self) -> (r: (i128, u32))
        ensures
            r.1 <= 4,
            r.0 * pow10((4 - r.1) as nat) == self@,
            magnitude(r.0 as int) <= MAX_MANTISSA,
            r.1 > 0 ==> r.0 % 10 != 0,
    {
        proof {
            use_type_invariant(self);
            lemma_pow10_values();
        }
        let a = magnitude_of(self.units);
        let (m, s): (u128, u32) = if a % 10000 == 0 {
            (a / 10000, 0)
        } else if a % 1000 == 0 {
            (a / 1000, 1)
        } else if a % 100 == 0 {
            (a / 100, 2)
        } else if a % 10 == 0 {
            (a / 10, 3)
        } else {
            (a, 4)
        };
        assert(m * pow10((4 - s) as nat) == a);
        assert(m <= MAX_MANTISSA);
        if self.units < 0 {
            assert((-(m as int)) * pow10((4 - s) as nat) == -(m * pow10((4 - s) as nat)))
                by (nonlinear_arith);
            (-(m as i128), s)
        } else {
            (m as i128, s)
        }
    }
}

impl View for Amount {
    type V = int;

    open spec fn view(&self) -> int {
        self.value()
    }
}

/// The parts of the decimal that `rust_decimal::Decimal::from_str_exact`
/// reads from `text`, as `(mantissa, scale)`; `None` where it refuses the text.
pub uninterp spec fn decimal_text_parts(text: Seq<char>) -> Option<(i128, u32)>;

/// The error type of `rust_decimal`.
#[verifier::external_type_specification]
#[verifier::external_body]
pub struct ExDecimalError(rust_decimal::Error);

/// Reads decimal text with `rust_decimal::Decimal::from_str_exact` and hands
/// out the parts of the result, `mantissa()` and `scale()`. The contract
/// claims only that the outcome is a function of the text, named
/// `decimal_text_parts`; which texts it accepts and what value it gives are
/// left to that crate.
#[verifier::external_body]
pub(crate) fn parse_decimal_exact(text: &str) -> (r: Result<DecimalValue, rust_decimal::Error>)
    ensures
        r is Ok <==> decimal_text_parts(text@) is Some,
        r matches Ok(d) ==> decimal_text_parts(text@) == Some((d.mantissa, d.scale)),
{
    match rust_decimal::Decimal::from_str_exact(text) {
        Ok(d) => Ok(DecimalValue { mantissa: d.mantissa(), scale: d.scale() }),
        Err(e) => Err(e),
    }
}

proof fn lemma_small_mod_pow(m: int, n: nat)
    requires
        0 <= m <= i128::MAX,
        pow10(n) >= pow10(39),
        pow10(39) == 1000000000000000000000000000000000000000int,
    ensures
        m % pow10(n) == m,
        m / pow10(n) == 0,
{
    vstd::arithmetic::div_mod::lemma_small_mod(m as nat, pow10(n) as nat);
    vstd::arithmetic::div_mod::lemma_basic_div(m, pow10(n));
}

proof fn lemma_zero_div_pow(n: nat)
    ensures
        0int % pow10(n) == 0,
        0int / pow10(n) == 0,
{
    lemma_pow10_positive(n);
}

} // verus!
