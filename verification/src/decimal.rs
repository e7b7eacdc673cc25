//! Decimal amounts.
//!
//! Prices and quantities are `rust_decimal` numbers.  The library holds them
//! as plain values (a 96-bit mantissa and a scale of at most 28) and calls
//! `rust_decimal` for every computation whose result it cannot state in a
//! few lines.
use rust_decimal::Decimal;
use vstd::prelude::*;

verus! {

/// Largest magnitude of a mantissa that `rust_decimal` can hold (2^96 - 1).
pub const MAX_MANTISSA: i128 = 0xFFFF_FFFF_FFFF_FFFF_FFFF_FFFFi128;

/// Largest scale (number of decimal places) that `rust_decimal` can hold.
pub const MAX_SCALE: u32 = 28u32;

/// `10^n`.
pub open spec fn pow10(n: nat) -> int
    decreases n,
{
    if n == 0 {
        1
    } else {
        10 * pow10((n - 1) as nat)
    }
}

/// A decimal number `mantissa * 10^-scale`.
#[derive(Clone, Copy, Debug)]
pub struct Dec {
    pub mantissa: i128,
    pub scale: u32,
}

impl Dec {
    /// The value lies in the range that `rust_decimal` can represent.
    pub open spec fn wf(self) -> bool {
        &&& -MAX_MANTISSA <= self.mantissa <= MAX_MANTISSA
        &&& self.scale <= MAX_SCALE
    }

    /// The value in units of `10^-28`: every representable decimal is a
    /// whole number of such units, so values compare as integers.
    pub open spec fn units(self) -> int {
        self.mantissa * pow10((MAX_SCALE - self.scale) as nat)
    }

    /// Builds `mantissa * 10^-scale`.
    pub fn new(mantissa: i128, scale: u32) -> (d: Dec)
        requires
            -MAX_MANTISSA <= mantissa <= MAX_MANTISSA,
            scale <= MAX_SCALE,
        ensures
            d.wf(),
            d.mantissa == mantissa,
            d.scale == scale,
    {
        Dec { mantissa, scale }
    }

    /// The number zero, with no decimal places.
    pub open spec fn zero_spec() -> Dec {
        Dec { mantissa: 0, scale: 0 }
    }

    /// The number zero, with no decimal places.
    pub fn zero() -> (d: Dec)
        ensures
            d.wf(),
            d.units() == 0,
            d == Dec::zero_spec(),
    {
        Dec { mantissa: 0, scale: 0 }
    }
}


/// `10^n` is positive.
pub proof fn lemma_pow10_positive(n: nat)
    ensures
        pow10(n) > 0,
    decreases n,
{
    if n > 0 {
        lemma_pow10_positive((n - 1) as nat);
    }
}

/// The sign of a decimal's value is the sign of its mantissa.
pub proof fn lemma_units_sign(d: Dec)
    ensures
        (d.units() == 0) == (d.mantissa == 0),
        (d.units() > 0) == (d.mantissa > 0),
        (d.units() < 0) == (d.mantissa < 0),
{
    let p = pow10((MAX_SCALE - d.scale) as nat);
    lemma_pow10_positive((MAX_SCALE - d.scale) as nat);
    let m = d.mantissa as int;
    assert((m * p == 0) == (m == 0) && (m * p > 0) == (m > 0) && (m * p < 0) == (m < 0))
        by (nonlinear_arith)
        requires
            p > 0,
    ;
}

impl Dec {
    /// Whether the value is zero.
    pub fn is_zero(&self) -> (r: bool)
        ensures
            r == (self.units() == 0),
    {
        proof {
            lemma_units_sign(*self);
        }
        self.mantissa == 0
    }

    /// Whether the value is above zero.
    pub fn is_positive(&self) -> (r: bool)
        ensures
            r == (self.units() > 0),
    {
        proof {
            lemma_units_sign(*self);
        }
        self.mantissa > 0
    }
}

impl Dec {
    /// The decimal that `text` spells, as `rust_decimal` reads it (see
    /// `parse`); `None` when it spells none.
    pub fn from_str(text: &str) -> (r: Option<Dec>)
        ensures
            r == decimal_parse(text@),
            r matches Some(x) ==> x.wf(),
    {
        parse(text)
    }

    /// The decimal as `rust_decimal` prints it (see `to_text`).
    pub fn to_string(&self) -> (r: String)
        requires
            self.wf(),
        ensures
            r@ == decimal_text(*self),
            decimal_parse(r@) == Some(*self),
    {
        to_text(*self)
    }
}

/// What `rust_decimal` gives for `a + b` (`checked_add`): `None` on overflow.
pub uninterp spec fn decimal_sum(a: Dec, b: Dec) -> Option<Dec>;

/// What `rust_decimal` gives for `a - b` (`checked_sub`): `None` on overflow.
pub uninterp spec fn decimal_difference(a: Dec, b: Dec) -> Option<Dec>;

/// What `rust_decimal` gives for `a * b` (`checked_mul`): `None` on overflow.
pub uninterp spec fn decimal_product(a: Dec, b: Dec) -> Option<Dec>;

/// What `rust_decimal` parses from a text (`Decimal::from_str`): `None` on error.
pub uninterp spec fn decimal_parse(text: Seq<char>) -> Option<Dec>;

/// The decimal digit `d` (below ten) as a character.
pub open spec fn digit_char(d: int) -> char {
    (48 + d) as char
}

/// The decimal digits of `n`, most significant first; none for zero.
pub open spec fn digits(n: nat) -> Seq<char>
    decreases n,
{
    if n == 0 {
        seq![]
    } else {
        digits(n / 10).push(digit_char((n % 10) as int))
    }
}

/// The text that `rust_decimal` prints for a decimal (its `Display`): a `-`
/// for a negative mantissa, the digits of the mantissa's magnitude with
/// zeros in front up to `scale` of them, the last `scale` of them after a
/// point, and a `0` when nothing stands before the point.
pub open spec fn decimal_text(d: Dec) -> Seq<char> {
    let magnitude = if d.mantissa < 0 { -d.mantissa } else { d.mantissa as int };
    let ds = digits(magnitude as nat);
    let padded = if ds.len() < d.scale { Seq::new((d.scale - ds.len()) as nat, |i: int| '0') + ds } else { ds };
    let cut = padded.len() - d.scale;
    let whole = padded.subrange(0, cut);
    let body = (if whole.len() == 0 { seq!['0'] } else { whole }) + (if d.scale > 0 {
        seq!['.'] + padded.subrange(cut, padded.len() as int)
    } else {
        seq![]
    });
    (if d.mantissa < 0 { seq!['-'] } else { seq![] }) + body
}

/// Calls `rust_decimal::Decimal::checked_add`.  The contract claims that the
/// result is a function of the two operands, and that a result is again a
/// representable decimal (a `Decimal`'s mantissa has 96 bits and its scale
/// is at most 28).  It does not claim that the sum is exact: `rust_decimal`
/// rounds when the exact sum needs more than 96 bits of mantissa.
#[verifier::external_body]
pub(crate) fn checked_add(a: Dec, b: Dec) -> (r: Option<Dec>)
    requires
        a.wf(),
        b.wf(),
    ensures
        r == decimal_sum(a, b),
        r matches Some(x) ==> x.wf(),
{
    let x = Decimal::from_i128_with_scale(a.mantissa, a.scale);
    let y = Decimal::from_i128_with_scale(b.mantissa, b.scale);
    x.checked_add(y).map(|z| Dec { mantissa: z.mantissa(), scale: z.scale() })
}

/// Calls `rust_decimal::Decimal::checked_sub`; the contract is that of
/// `checked_add`, for the difference, and two facts more.  A decimal less
/// itself is zero, and never overflows: the operands have the same scale and
/// the same mantissa, and each path of the subtraction subtracts them as they
/// are.  A difference is never below zero when `a` is at least `b`: every
/// path either computes the exact difference, sign included, or (when the
/// exact one needs more than 96 bits) rounds its magnitude to fewer decimal
/// places, keeping the sign of the exact difference.
#[verifier::external_body]
pub(crate) fn checked_sub(a: Dec, b: Dec) -> (r: Option<Dec>)
    requires
        a.wf(),
        b.wf(),
    ensures
        r == decimal_difference(a, b),
        r matches Some(x) ==> x.wf(),
        a == b ==> r is Some && r.unwrap().units() == 0,
        r is Some && a.units() >= b.units() ==> r.unwrap().units() >= 0,
{
    let x = Decimal::from_i128_with_scale(a.mantissa, a.scale);
    let y = Decimal::from_i128_with_scale(b.mantissa, b.scale);
    x.checked_sub(y).map(|z| Dec { mantissa: z.mantissa(), scale: z.scale() })
}

/// Calls `rust_decimal::Decimal::checked_mul`; the contract is that of
/// `checked_add`, for the product (which `rust_decimal` rounds to 96 bits).
#[verifier::external_body]
pub(crate) fn checked_mul(a: Dec, b: Dec) -> (r: Option<Dec>)
    requires
        a.wf(),
        b.wf(),
    ensures
        r == decimal_product(a, b),
        r matches Some(x) ==> x.wf(),
{
    let x = Decimal::from_i128_with_scale(a.mantissa, a.scale);
    let y = Decimal::from_i128_with_scale(b.mantissa, b.scale);
    x.checked_mul(y).map(|z| Dec { mantissa: z.mantissa(), scale: z.scale() })
}

/// Calls `<rust_decimal::Decimal as PartialOrd>::lt`, which orders decimals
/// by their numeric value, whatever their scales.
#[verifier::external_body]
pub(crate) fn less_than(a: Dec, b: Dec) -> (r: bool)
    requires
        a.wf(),
        b.wf(),
    ensures
        r == (a.units() < b.units()),
{
    let x = Decimal::from_i128_with_scale(a.mantissa, a.scale);
    let y = Decimal::from_i128_with_scale(b.mantissa, b.scale);
    x < y
}

/// Calls `<rust_decimal::Decimal as PartialEq>::eq`, which holds exactly when
/// the two numeric values are equal (`1.0 == 1.00`).
#[verifier::external_body]
pub(crate) fn equal(a: Dec, b: Dec) -> (r: bool)
    requires
        a.wf(),
        b.wf(),
    ensures
        r == (a.units() == b.units()),
{
    let x = Decimal::from_i128_with_scale(a.mantissa, a.scale);
    let y = Decimal::from_i128_with_scale(b.mantissa, b.scale);
    x == y
}

/// Calls `<rust_decimal::Decimal as FromStr>::from_str`.  The contract claims
/// that the outcome is a function of the text and that a parsed value is
/// representable; which texts parse is left to `rust_decimal`.
#[verifier::external_body]
pub(crate) fn parse(text: &str) -> (r: Option<Dec>)
    ensures
        r == decimal_parse(text@),
        r matches Some(x) ==> x.wf(),
{
    <Decimal as std::str::FromStr>::from_str(text).ok().map(|z| Dec { mantissa: z.mantissa(), scale: z.scale() })
}

/// Calls `<rust_decimal::Decimal as ToString>::to_string`.  The contract
/// claims that the text is the one `decimal_text` spells (its `Display`
/// writes the mantissa's digits, pads them with zeros up to `scale` of them,
/// puts a point before the last `scale`, a `0` before a bare point, and a
/// `-` before a negative value), and that `from_str` reads it back as the
/// same decimal: the parser keeps every digit of a mantissa that fits in 96
/// bits and counts the digits after the point as the scale.
#[verifier::external_body]
pub(crate) fn to_text(d: Dec) -> (r: String)
    requires
        d.wf(),
    ensures
        r@ == decimal_text(d),
        decimal_parse(r@) == Some(d),
{
    Decimal::from_i128_with_scale(d.mantissa, d.scale).to_string()
}

} // verus!
