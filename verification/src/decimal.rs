//! [`Decimal`] — the value form of a `rust_decimal::Decimal`: a signed 96-bit
//! mantissa and a power-of-ten scale between 0 and 28.
//!
//! The billing logic reads decimals as plain values, so they are held here as
//! plain values. Arithmetic that `rust_decimal` performs (rounding, normalising,
//! multiplying, dividing, comparing) is still performed by `rust_decimal`: each
//! such operation goes through one small trusted wrapper whose contract states
//! what the crate's source shows the operation returns.
use vstd::prelude::*;

use crate::amount::RoundingStrategy;
use crate::arith::abs;
use crate::text::digit_char;
use rust_decimal::RoundingStrategy as OutsideRounding;
use vstd::std_specs::cmp::PartialEqSpecImpl;

verus! {

/// `2^96 - 1`, the largest mantissa magnitude a decimal can hold.
pub const MAX_MANTISSA: i128 = 79_228_162_514_264_337_593_543_950_335;

/// The largest scale (number of fractional digits) a decimal can hold.
pub const MAX_SCALE: u32 = 28;

/// `10^n`.
pub open spec fn pow10(n: nat) -> int
    decreases n,
{
    if n == 0 {
        1
    } else {
        10 * pow10((n - 1) as nat)
    }
}

/// Rounding of the rational `n / d` (`d > 0`) to an integer with `mode`.
///
/// `q` is the floor quotient and `r` the non-negative remainder; every mode is
/// "do we move one step up from the floor?".
pub open spec fn round_div(n: int, d: int, mode: RoundingStrategy) -> int {
    let q = n / d;
    let r = n % d;
    match mode {
        RoundingStrategy::Floor => q,
        RoundingStrategy::Ceiling => if r != 0 { q + 1 } else { q },
        RoundingStrategy::Truncate => if n < 0 && r != 0 { q + 1 } else { q },
        RoundingStrategy::MidpointAwayFromZero => {
            if (n >= 0 && 2 * r >= d) || (n < 0 && 2 * r > d) {
                q + 1
            } else {
                q
            }
        },
        RoundingStrategy::MidpointToEven => {
            if 2 * r > d || (2 * r == d && q % 2 != 0) {
                q + 1
            } else {
                q
            }
        },
    }
}

/// `m × 10^-s` with its trailing zeros stripped: the smallest scale that still
/// holds the number, and scale 0 for zero.
pub open spec fn strip_zeros(m: int, s: nat) -> (int, nat)
    decreases s,
{
    if s > 0 && m % 10 == 0 {
        strip_zeros(m / 10, (s - 1) as nat)
    } else {
        (m, s)
    }
}

/// `m × 10^-s` rounded to `dp` places with `mode`: unchanged when it already
/// has at most `dp` places.
pub open spec fn round_dp_spec(m: int, s: nat, dp: nat, mode: RoundingStrategy) -> (int, nat) {
    if s <= dp {
        (m, s)
    } else {
        (round_div(m, pow10((s - dp) as nat), mode), dp)
    }
}

/// What `rust_decimal` computes for `(am × 10^-as) × (bm × 10^-bs)`: the
/// mantissa and scale of the product, or `None` on overflow.
pub uninterp spec fn decimal_product(am: int, a_scale: nat, bm: int, b_scale: nat) -> Option<(int, nat)>;

/// What `rust_decimal` computes for `(am × 10^-as) ÷ (bm × 10^-bs)`: the
/// mantissa and scale of the quotient, or `None` on overflow or a zero divisor.
pub uninterp spec fn decimal_quotient(am: int, a_scale: nat, bm: int, b_scale: nat) -> Option<(int, nat)>;

/// What `rust_decimal` computes for `(am × 10^-as) + (bm × 10^-bs)`: the
/// mantissa and scale of the sum, or `None` on overflow.
pub uninterp spec fn decimal_sum(am: int, a_scale: nat, bm: int, b_scale: nat) -> Option<(int, nat)>;

/// What `rust_decimal` computes for `(am × 10^-as) - (bm × 10^-bs)`: the
/// mantissa and scale of the difference, or `None` on overflow.
pub uninterp spec fn decimal_difference(am: int, a_scale: nat, bm: int, b_scale: nat) -> Option<(int, nat)>;

/// The decimal digits of `n`, most significant first; none for zero.
pub open spec fn mantissa_digits(n: nat) -> Seq<char>
    decreases n,
{
    if n == 0 {
        Seq::empty()
    } else {
        mantissa_digits(n / 10).push(digit_char((n % 10) as int))
    }
}

/// The digits of `|m|`, with leading zeros up to at least `s` of them.
pub open spec fn padded_digits(m: int, s: nat) -> Seq<char> {
    let d = mantissa_digits(abs(m) as nat);
    if d.len() >= s {
        d
    } else {
        Seq::new((s - d.len()) as nat, |i: int| '0') + d
    }
}

/// The whole part of a text: the digits before the point, `0` where there
/// are none.
pub open spec fn whole_text(body: Seq<char>, w: int) -> Seq<char> {
    if w == 0 {
        seq!['0']
    } else {
        body.take(w)
    }
}

/// The text `rust_decimal`'s `Display` writes for `m × 10^-s`: a minus sign
/// for a negative value, the digits of `|m|` (at least `s` of them, padded
/// with leading zeros), a point before the last `s` when `s > 0` with `0`
/// before it where no digit is left, and `0` for zero at scale 0.
pub open spec fn decimal_text(m: int, s: nat) -> Seq<char> {
    let body = padded_digits(m, s);
    let w = body.len() - s;
    let text = if s == 0 {
        if body.len() == 0 {
            seq!['0']
        } else {
            body
        }
    } else {
        whole_text(body, w) + seq!['.'] + body.skip(w)
    };
    (if m < 0 {
        seq!['-']
    } else {
        Seq::empty()
    }) + text
}

/// The text `rust_decimal`'s `Display` writes for `m × 10^-s` with `prec`
/// fractional digits (`{:.prec$}`): as [`decimal_text`], but the fraction
/// cut or filled with zeros to `prec` digits (no point where `prec` is 0),
/// the first 28 taken from the digits and any further ones zeros.
pub open spec fn decimal_fixed_text(m: int, s: nat, prec: nat) -> Seq<char> {
    let body = padded_digits(m, s);
    let w = body.len() - s;
    let p: nat = if prec > 28 {
        28
    } else {
        prec
    };
    let frac = Seq::new(p, |j: int| if w + j < body.len() { body[w + j] } else { '0' });
    let text = if p == 0 {
        whole_text(body, w)
    } else {
        whole_text(body, w) + seq!['.'] + frac
    };
    let extra = Seq::new((prec - p) as nat, |j: int| '0');
    (if m < 0 {
        seq!['-']
    } else {
        Seq::empty()
    }) + text + extra
}

/// `rust_decimal::Decimal::ceil` of `m × 10^-s`: the value unchanged at
/// scale 0; otherwise truncated toward zero to scale 0, plus one when the
/// value is positive and a fraction was cut off.
pub open spec fn ceil_spec(m: int, s: nat) -> (int, nat) {
    if s == 0 {
        (m, 0)
    } else {
        let p = pow10(s);
        let t = if m >= 0 { m / p } else { -((-m) / p) };
        if m > 0 && t * p != m {
            (t + 1, 0)
        } else {
            (t, 0)
        }
    }
}

/// `m` brought to scale `t` (`s <= t`): `m × 10^(t - s)`.
pub open spec fn rescaled(m: int, s: nat, t: nat) -> int {
    m * pow10((t - s) as nat)
}

/// The mantissa `d` has at scale `t` (for `d.s() <= t`): `d.m() × 10^(t - d.s())`.
pub open spec fn at_scale(d: Decimal, t: nat) -> int {
    d.m() * pow10((t - d.s()) as nat)
}

/// The larger of two scales.
pub open spec fn max_scale(a: nat, b: nat) -> nat {
    if a >= b { a } else { b }
}

/// Whether `a ± b` at the larger scale is computed exactly: both operands,
/// brought to that scale, and the result fit in 96 bits.
pub open spec fn aligned_fits(am: int, a_scale: nat, bm: int, b_scale: nat, r: int) -> bool {
    let t = max_scale(a_scale, b_scale);
    &&& -MAX_MANTISSA <= rescaled(am, a_scale, t) <= MAX_MANTISSA
    &&& -MAX_MANTISSA <= rescaled(bm, b_scale, t) <= MAX_MANTISSA
    &&& -MAX_MANTISSA <= r <= MAX_MANTISSA
}

/// Whether `rust_decimal` multiplies `a` and `b` exactly: both are nonzero,
/// the product of the mantissas fits 96 bits and the summed scale is at most 28.
pub open spec fn exact_product(a: Decimal, b: Decimal) -> bool {
    &&& a.m() != 0 && b.m() != 0
    &&& -MAX_MANTISSA <= a.m() * b.m() <= MAX_MANTISSA
    &&& a.s() + b.s() <= MAX_SCALE
}

/// What `rust_decimal`'s subtraction guarantees of `d = a - b` (see
/// [`Decimal::checked_sub`]): `-b` when `a` is zero, `a` when only `b` is,
/// and otherwise the exact difference at the larger scale whenever both
/// operands brought to that scale, and the difference, fit 96 bits.
pub open spec fn difference_exact(a: Decimal, b: Decimal, d: Decimal) -> bool {
    &&& a.m() == 0 ==> (d.m(), d.s()) == (-b.m(), b.s())
    &&& (a.m() != 0 && b.m() == 0) ==> (d.m(), d.s()) == (a.m(), a.s())
    &&& ({
        let u = max_scale(a.s(), b.s());
        let x = rescaled(a.m(), a.s(), u) - rescaled(b.m(), b.s(), u);
        a.m() != 0 && b.m() != 0 && aligned_fits(a.m(), a.s(), b.m(), b.s(), x) ==> (d.m(), d.s()) == (x, u)
    })
}

/// The parts of an optional decimal.
pub open spec fn parts_of(d: Option<Decimal>) -> Option<(int, nat)> {
    match d {
        Some(x) => Some((x.m(), x.s())),
        None => None,
    }
}

/// A decimal number `mantissa × 10^-scale`. Two decimals are `==` when they
/// denote the same number, whatever their scales.
#[derive(Clone, Copy, Debug, Eq)]
pub struct Decimal {
    mantissa: i128,
    scale: u32,
}

impl Decimal {
    #[verifier::type_invariant]
    spec fn well_formed(self) -> bool {
        &&& -MAX_MANTISSA <= self.mantissa <= MAX_MANTISSA
        &&& self.scale <= MAX_SCALE
    }

    /// The mantissa.
    pub closed spec fn m(self) -> int {
        self.mantissa as int
    }

    /// The scale.
    pub closed spec fn s(self) -> nat {
        self.scale as nat
    }

    /// The decimal with mantissa `m` and scale `k` (meaningful when both are in
    /// range).
    pub closed spec fn value_of(m: int, k: nat) -> Decimal {
        Decimal { mantissa: m as i128, scale: k as u32 }
    }

    /// A decimal is the value of its own mantissa and scale; in range, the
    /// value of a mantissa and scale has exactly those parts.
    pub proof fn lemma_value_of(d: Decimal)
        ensures
            Decimal::value_of(d.m(), d.s()) == d,
    {
    }

    /// `self` and `other` denote the same number (whatever their scales).
    pub open spec fn same_value(self, other: Decimal) -> bool {
        self.m() * pow10(other.s()) == other.m() * pow10(self.s())
    }

    /// `self < other` as numbers.
    pub open spec fn less_than(self, other: Decimal) -> bool {
        self.m() * pow10(other.s()) < other.m() * pow10(self.s())
    }

    /// `self` denotes the integer `n`.
    pub open spec fn is_int(self, n: int) -> bool {
        self.m() == n * pow10(self.s())
    }

    /// `self` denotes `n × 10^-k`.
    pub open spec fn denotes(self, n: int, k: nat) -> bool {
        self.m() * pow10(k) == n * pow10(self.s())
    }

    /// `num × 10^-scale`, like `rust_decimal::Decimal::new`.
    pub fn new(num: i64, scale: u32) -> (d: Decimal)
        requires
            scale <= MAX_SCALE,
        ensures
            d.m() == num,
            d.s() == scale,
    {
        Decimal { mantissa: num as i128, scale }
    }

    /// `num × 10^-scale`, or `None` when the mantissa exceeds 96 bits or the
    /// scale exceeds 28.
    pub fn try_from_i128_with_scale(num: i128, scale: u32) -> (d: Option<Decimal>)
        ensures
            d is Some <==> (-MAX_MANTISSA <= num <= MAX_MANTISSA && scale <= MAX_SCALE),
            d matches Some(x) ==> x.m() == num && x.s() == scale,
    {
        if scale > MAX_SCALE || num > MAX_MANTISSA || num < -MAX_MANTISSA {
            None
        } else {
            Some(Decimal { mantissa: num, scale })
        }
    }

    /// The integer `n` at scale 0.
    pub fn from_i64(n: i64) -> (d: Decimal)
        ensures
            d.m() == n,
            d.s() == 0,
    {
        Decimal { mantissa: n as i128, scale: 0 }
    }

    /// Zero.
    pub fn zero() -> (d: Decimal)
        ensures
            d.m() == 0,
            d.s() == 0,
    {
        Decimal { mantissa: 0, scale: 0 }
    }

    /// One.
    pub fn one() -> (d: Decimal)
        ensures
            d.m() == 1,
            d.s() == 0,
    {
        Decimal { mantissa: 1, scale: 0 }
    }

    /// The largest decimal, `2^96 - 1`.
    pub fn max_value() -> (d: Decimal)
        ensures
            d.m() == MAX_MANTISSA,
            d.s() == 0,
    {
        Decimal { mantissa: MAX_MANTISSA, scale: 0 }
    }

    /// The mantissa.
    pub fn mantissa(&self) -> (r: i128)
        ensures
            r == self.m(),
            -MAX_MANTISSA <= r <= MAX_MANTISSA,
    {
        proof { use_type_invariant(self); }
        self.mantissa
    }

    /// The scale.
    pub fn scale(&self) -> (r: u32)
        ensures
            r == self.s(),
            r <= MAX_SCALE,
    {
        proof { use_type_invariant(self); }
        self.scale
    }

    /// Whether the value is zero.
    pub fn is_zero(&self) -> (r: bool)
        ensures
            r == (self.m() == 0),
    {
        self.mantissa == 0
    }

    /// Whether the value is below zero.
    pub fn is_negative(&self) -> (r: bool)
        ensures
            r == (self.m() < 0),
    {
        self.mantissa < 0
    }

    /// `rust_decimal::Decimal::normalize`: strip trailing zeros.
    ///
    /// The crate's source divides the mantissa by ten while the division is exact
    /// and the scale is positive, and maps every zero to scale 0; so the result
    /// denotes the same number at the smallest scale that holds it.
    #[verifier::external_body]
    pub(crate) fn normalize(&self) -> (r: Decimal)
        ensures
            (r.m(), r.s()) == strip_zeros(self.m(), self.s()),
    {
        let x = rust_decimal::Decimal::from_i128_with_scale(self.mantissa, self.scale).normalize();
        Decimal { mantissa: x.mantissa(), scale: x.scale() }
    }

    /// `rust_decimal::Decimal::round_dp_with_strategy`: round to `dp` places.
    ///
    /// The crate's source returns the value unchanged when its scale is at most
    /// `dp`; otherwise it divides the magnitude by `10^(scale - dp)` and steps
    /// one away from zero exactly as the named strategy demands, keeping the
    /// sign and setting the scale to `dp`.
    #[verifier::external_body]
    pub(crate) fn round_dp_with_strategy(&self, dp: u32, strategy: RoundingStrategy) -> (r: Decimal)
        ensures
            self.s() <= dp ==> r == *self,
            (r.m(), r.s()) == round_dp_spec(self.m(), self.s(), dp as nat, strategy),
    {
        let s = match strategy {
            RoundingStrategy::MidpointAwayFromZero => OutsideRounding::MidpointAwayFromZero,
            RoundingStrategy::MidpointToEven => OutsideRounding::MidpointNearestEven,
            RoundingStrategy::Ceiling => OutsideRounding::ToPositiveInfinity,
            RoundingStrategy::Floor => OutsideRounding::ToNegativeInfinity,
            RoundingStrategy::Truncate => OutsideRounding::ToZero,
        };
        let x = rust_decimal::Decimal::from_i128_with_scale(self.mantissa, self.scale);
        let y = x.round_dp_with_strategy(dp, s);
        Decimal { mantissa: y.mantissa(), scale: y.scale() }
    }

    /// `rust_decimal::Decimal::checked_mul`.
    ///
    /// The result is named by [`decimal_product`]. The crate's source returns
    /// zero at scale 0 when either factor is zero, and the exact product at the
    /// summed scale whenever that mantissa fits 96 bits and the scale is at most
    /// 28; otherwise it rounds to fit, or overflows.
    #[verifier::external_body]
    pub(crate) fn checked_mul(&self, other: &Decimal) -> (r: Option<Decimal>)
        ensures
            parts_of(r) == decimal_product(self.m(), self.s(), other.m(), other.s()),
            (self.m() == 0 || other.m() == 0) ==> parts_of(r) == Some((0int, 0nat)),
            exact_product(*self, *other) ==> parts_of(r) == Some(
                (self.m() * other.m(), self.s() + other.s()),
            ),
    {
        let a = rust_decimal::Decimal::from_i128_with_scale(self.mantissa, self.scale);
        let b = rust_decimal::Decimal::from_i128_with_scale(other.mantissa, other.scale);
        match a.checked_mul(b) {
            Some(x) => Some(Decimal { mantissa: x.mantissa(), scale: x.scale() }),
            None => None,
        }
    }

    /// `rust_decimal::Decimal::checked_div`.
    ///
    /// The result is named by [`decimal_quotient`]. The crate's source returns
    /// `None` for a zero divisor and zero at scale 0 for a zero dividend.
    #[verifier::external_body]
    pub(crate) fn checked_div(&self, other: &Decimal) -> (r: Option<Decimal>)
        ensures
            parts_of(r) == decimal_quotient(self.m(), self.s(), other.m(), other.s()),
            other.m() == 0 ==> r is None,
            (other.m() != 0 && self.m() == 0) ==> parts_of(r) == Some((0int, 0nat)),
    {
        let a = rust_decimal::Decimal::from_i128_with_scale(self.mantissa, self.scale);
        let b = rust_decimal::Decimal::from_i128_with_scale(other.mantissa, other.scale);
        match a.checked_div(b) {
            Some(x) => Some(Decimal { mantissa: x.mantissa(), scale: x.scale() }),
            None => None,
        }
    }

    /// `<` on `rust_decimal::Decimal`, which compares the numbers denoted.
    #[verifier::external_body]
    pub(crate) fn lt(&self, other: &Decimal) -> (r: bool)
        ensures
            r == self.less_than(*other),
    {
        let a = rust_decimal::Decimal::from_i128_with_scale(self.mantissa, self.scale);
        let b = rust_decimal::Decimal::from_i128_with_scale(other.mantissa, other.scale);
        a < b
    }

    /// `==` on `rust_decimal::Decimal`, which compares the numbers denoted.
    #[verifier::external_body]
    pub(crate) fn value_eq(&self, other: &Decimal) -> (r: bool)
        ensures
            r == self.same_value(*other),
    {
        let a = rust_decimal::Decimal::from_i128_with_scale(self.mantissa, self.scale);
        let b = rust_decimal::Decimal::from_i128_with_scale(other.mantissa, other.scale);
        a == b
    }

    /// `rust_decimal::Decimal::checked_add`.
    ///
    /// The result is named by [`decimal_sum`]. The crate's source returns the
    /// other operand unchanged when one is zero, and otherwise the exact sum at
    /// the larger scale whenever both operands brought to that scale, and the
    /// sum, fit 96 bits.
    #[verifier::external_body]
    pub(crate) fn checked_add(&self, other: &Decimal) -> (r: Option<Decimal>)
        ensures
            parts_of(r) == decimal_sum(self.m(), self.s(), other.m(), other.s()),
            self.m() == 0 ==> parts_of(r) == Some((other.m(), other.s())),
            (self.m() != 0 && other.m() == 0) ==> parts_of(r) == Some((self.m(), self.s())),
            ({
                let t = max_scale(self.s(), other.s());
                let x = rescaled(self.m(), self.s(), t) + rescaled(other.m(), other.s(), t);
                self.m() != 0 && other.m() != 0 && aligned_fits(self.m(), self.s(), other.m(), other.s(), x)
                    ==> parts_of(r) == Some((x, t))
            }),
    {
        let a = rust_decimal::Decimal::from_i128_with_scale(self.mantissa, self.scale);
        let b = rust_decimal::Decimal::from_i128_with_scale(other.mantissa, other.scale);
        match a.checked_add(b) {
            Some(x) => Some(Decimal { mantissa: x.mantissa(), scale: x.scale() }),
            None => None,
        }
    }

    /// `rust_decimal::Decimal::checked_sub`.
    ///
    /// The result is named by [`decimal_difference`]. The crate's source returns
    /// the subtrahend, negated, when the minuend is zero (so `0 - 0` keeps the
    /// subtrahend's scale); the minuend unchanged when only the subtrahend is
    /// zero; and otherwise the exact difference at the larger scale whenever
    /// both operands brought to that scale, and the difference, fit 96 bits.
    #[verifier::external_body]
    pub(crate) fn checked_sub(&self, other: &Decimal) -> (r: Option<Decimal>)
        ensures
            parts_of(r) == decimal_difference(self.m(), self.s(), other.m(), other.s()),
            self.m() == 0 ==> parts_of(r) == Some((-other.m(), other.s())),
            (self.m() != 0 && other.m() == 0) ==> parts_of(r) == Some((self.m(), self.s())),
            ({
                let t = max_scale(self.s(), other.s());
                let x = rescaled(self.m(), self.s(), t) - rescaled(other.m(), other.s(), t);
                self.m() != 0 && other.m() != 0 && aligned_fits(self.m(), self.s(), other.m(), other.s(), x)
                    ==> parts_of(r) == Some((x, t))
            }),
    {
        let a = rust_decimal::Decimal::from_i128_with_scale(self.mantissa, self.scale);
        let b = rust_decimal::Decimal::from_i128_with_scale(other.mantissa, other.scale);
        match a.checked_sub(b) {
            Some(x) => Some(Decimal { mantissa: x.mantissa(), scale: x.scale() }),
            None => None,
        }
    }

    /// The text `rust_decimal`'s `Display` writes for this value, as
    /// [`decimal_text`] spells it out from the crate's `to_str_internal`
    /// (digits of the mantissa, a point `scale` digits from the right, a
    /// leading `-` for a negative value).
    #[verifier::external_body]
    pub(crate) fn to_text(&self) -> (r: String)
        ensures
            r@ == decimal_text(self.m(), self.s()),
    {
        rust_decimal::Decimal::from_i128_with_scale(self.mantissa, self.scale).to_string()
    }

    /// `rust_decimal::Decimal::ceil`: the source returns the value itself at
    /// scale 0; otherwise it truncates to scale 0 and adds one when the value
    /// is positive and a fraction was discarded.
    #[verifier::external_body]
    pub(crate) fn ceil(&self) -> (r: Decimal)
        ensures
            (r.m(), r.s()) == ceil_spec(self.m(), self.s()),
    {
        let x = rust_decimal::Decimal::from_i128_with_scale(self.mantissa, self.scale).ceil();
        Decimal { mantissa: x.mantissa(), scale: x.scale() }
    }

    /// The text `rust_decimal`'s `Display` writes for this value with exactly
    /// `prec` fractional digits, as [`decimal_fixed_text`] spells it out from
    /// the crate's `to_str_internal`: the fraction cut or filled with zeros,
    /// not rounded.
    #[verifier::external_body]
    pub(crate) fn to_fixed_text(&self, prec: u32) -> (r: String)
        ensures
            r@ == decimal_fixed_text(self.m(), self.s(), prec as nat),
    {
        let d = rust_decimal::Decimal::from_i128_with_scale(self.mantissa, self.scale);
        format!("{:.prec$}", d, prec = prec as usize)
    }

    /// The magnitude, at the same scale (`rust_decimal::Decimal::abs`).
    pub fn abs(&self) -> (r: Decimal)
        ensures
            r.m() == (if self.m() < 0 { -self.m() } else { self.m() }),
            r.s() == self.s(),
    {
        proof { use_type_invariant(self); }
        Decimal { mantissa: if self.mantissa < 0 { -self.mantissa } else { self.mantissa }, scale: self.scale }
    }

    /// The integer `n` at scale 0 (`Decimal::from(usize)`).
    pub fn from_usize(n: usize) -> (d: Decimal)
        ensures
            d.m() == n,
            d.s() == 0,
    {
        assert(n <= u64::MAX);
        Decimal { mantissa: n as i128, scale: 0 }
    }

    /// `self <= other` as numbers.
    pub fn le(&self, other: &Decimal) -> (r: bool)
        ensures
            r == (self.less_than(*other) || self.same_value(*other)),
    {
        self.lt(other) || self.value_eq(other)
    }
}

impl PartialEq for Decimal {
    fn eq(&self, other: &Decimal) -> (r: bool) {
        self.value_eq(other)
    }
}

impl PartialEqSpecImpl for Decimal {
    open spec fn obeys_eq_spec() -> bool {
        true
    }

    open spec fn eq_spec(&self, other: &Decimal) -> bool {
        self.same_value(*other)
    }
}

} // verus!
