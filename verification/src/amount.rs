//! [`Amount<P>`] — fixed-point monetary arithmetic with compile-time precision.
use vstd::prelude::*;
use vstd::string::StringExecFns;

use crate::decimal::{pow10, round_div, round_dp_spec, strip_zeros, Decimal};
use crate::error::BillingError;
use vstd::std_specs::convert::TryFromSpecImpl;

verus! {

/// Explicit rounding strategy. Always required — no hidden defaults.
#[derive(Debug, Clone, Copy, PartialEq, Eq, Hash)]
pub enum RoundingStrategy {
    /// Midpoint 0.5 rounds away from zero (commercial rounding).
    MidpointAwayFromZero,
    /// Midpoint 0.5 rounds to the nearest even digit (banker's rounding).
    MidpointToEven,
    /// Toward positive infinity.
    Ceiling,
    /// Toward negative infinity.
    Floor,
    /// Toward zero.
    Truncate,
}

} // verus!

verus! {

/// How many decimal places every monetary amount in a document may carry, and
/// how to get there.
#[derive(Debug, Clone, Copy, PartialEq, Eq, Hash)]
pub struct AmountScale {
    decimals: u8,
    strategy: RoundingStrategy,
}

impl AmountScale {
    #[verifier::type_invariant]
    spec fn within_line_precision(self) -> bool {
        self.decimals <= 5
    }

    /// The places this scale reduces to.
    pub closed spec fn spec_decimals(self) -> u8 {
        self.decimals
    }

    /// The strategy this scale rounds with.
    pub closed spec fn spec_strategy(self) -> RoundingStrategy {
        self.strategy
    }

    /// The precision EN 16931 mandates: two decimals, half away from zero.
    pub fn en16931() -> (s: AmountScale)
        ensures
            s.spec_decimals() == 2,
            s.spec_strategy() == RoundingStrategy::MidpointAwayFromZero,
    {
        AmountScale { decimals: 2, strategy: RoundingStrategy::MidpointAwayFromZero }
    }

    /// A custom scale; `Err(InvalidInput)` exactly when `decimals` exceeds the
    /// five places a line amount carries.
    pub fn new(decimals: u8, strategy: RoundingStrategy) -> (r: Result<Self, BillingError>)
        ensures
            decimals > 5 <==> r is Err,
            r matches Err(e) ==> e is InvalidInput,
            r matches Ok(s) ==> s.spec_decimals() == decimals && s.spec_strategy() == strategy,
    {
        if decimals > 5 {
            return Err(BillingError::InvalidInput {
                reason: crate::text::join3(
                    "AmountScale decimals must be <= 5 (the precision of a LineItem amount), got ",
                    crate::text::usize_text(decimals as usize).as_str(),
                    "",
                ),
            });
        }
        Ok(AmountScale { decimals, strategy })
    }

    /// The number of decimal places amounts are reduced to.
    pub fn decimals(self) -> (d: u8)
        ensures
            d == self.spec_decimals(),
    {
        self.decimals
    }

    /// The rounding strategy applied when reducing.
    pub fn strategy(self) -> (s: RoundingStrategy)
        ensures
            s == self.spec_strategy(),
    {
        self.strategy
    }

    /// The raw value `v` (at five places) reduced to this scale, or `None`
    /// where the rounded value leaves `i64`.
    pub open spec fn reduce_spec(self, v: int) -> Option<int> {
        if self.spec_decimals() >= 5 {
            Some(v)
        } else {
            let x = round_to_multiple(v, pow10((5 - self.spec_decimals()) as nat), self.spec_strategy());
            if crate::arith::fits_i64(x) {
                Some(x)
            } else {
                None
            }
        }
    }

    /// The exact decimal `m × 10^-s` rounded once to this scale, as a raw
    /// value at five places.
    pub open spec fn reduce_decimal_spec(self, m: int, s: nat) -> int {
        rounded_raw(m, s, self.spec_decimals() as nat, self.spec_strategy()) * pow10((5 - self.spec_decimals()) as nat)
    }

    /// Apply this scale to one amount: [`Amount::round_to_scale`].
    pub fn apply(self, amount: Amount<5>) -> (r: Result<Amount<5>, BillingError>)
        ensures
            r is Ok <==> self.reduce_spec(amount@ as int) is Some,
            r matches Ok(a) ==> self.reduce_spec(amount@ as int) == Some(a@ as int),
            r matches Err(e) ==> e is MonetaryOverflow,
            self.spec_decimals() >= 5 ==> r == Ok::<Amount<5>, BillingError>(amount),
            self.spec_decimals() < 5 ==> ({
                let x = round_to_multiple(
                    amount@ as int,
                    pow10((5 - self.spec_decimals()) as nat),
                    self.spec_strategy(),
                );
                match r {
                    Ok(a) => a@ == x,
                    Err(e) => !crate::arith::fits_i64(x) && e == BillingError::overflow_spec(5, None),
                }
            }),
    {
        amount.round_to_scale(self.decimals, self.strategy)
    }

    /// Reduce an exact decimal to this scale in a single rounding, then convert
    /// exactly to an `Amount<5>`.
    pub fn apply_decimal(self, value: Decimal) -> (r: Result<Amount<5>, BillingError>)
        ensures
            r is Ok <==> crate::arith::fits_i64(self.reduce_decimal_spec(value.m(), value.s())),
            r matches Ok(a) ==> a@ == self.reduce_decimal_spec(value.m(), value.s()),
            ({
                let x = rounded_raw(value.m(), value.s(), self.spec_decimals() as nat, self.spec_strategy())
                    * pow10((5 - self.spec_decimals()) as nat);
                match r {
                    Ok(a) => a@ == x,
                    Err(e) => !crate::arith::fits_i64(x) && e is MonetaryOverflow,
                }
            }),
    {
        proof { use_type_invariant(&self); }
        let rounded = value.round_dp_with_strategy(self.decimals as u32, self.strategy);
        proof {
            let (m2, s2) = strip_zeros(rounded.m(), rounded.s());
            crate::arith::lemma_strip_zeros(rounded.m(), rounded.s());
            crate::arith::lemma_pow10_add((self.decimals - rounded.s()) as nat, (5 - self.decimals) as nat);
            crate::arith::lemma_pow10_add((rounded.s() - s2) as nat, (5 - rounded.s()) as nat);
            assert(m2 * pow10((5 - s2) as nat) == rounded.m() * pow10((5 - rounded.s()) as nat)) by (nonlinear_arith)
                requires
                    rounded.m() == m2 * pow10((rounded.s() - s2) as nat),
                    pow10((5 - s2) as nat) == pow10((rounded.s() - s2) as nat) * pow10((5 - rounded.s()) as nat);
            assert(rounded.m() * pow10((5 - rounded.s()) as nat) == rounded.m() * pow10((self.decimals - rounded.s()) as nat) * pow10((5 - self.decimals) as nat)) by (nonlinear_arith)
                requires
                    pow10((5 - rounded.s()) as nat) == pow10((self.decimals - rounded.s()) as nat) * pow10((5 - self.decimals) as nat);
        }
        Amount::<5>::checked_from_decimal(rounded)
    }
}

/// Fixed-point monetary amount with `P` decimal places, stored as an `i64`
/// scaled by `10^P`.
#[derive(Clone, Copy, PartialEq, Eq, PartialOrd, Ord, Hash, Debug)]
pub struct Amount<const P: u8>(i64);

/// 5 decimal places — high-precision monetary amounts.
pub type EuroAmount = Amount<5>;

/// Standard invoice precision: 2 decimal places (e.g. `49.99`).
pub type InvoiceAmt = Amount<2>;

impl<const P: u8> View for Amount<P> {
    type V = i64;

    /// The raw scaled integer: the amount is `self@ × 10^-P`.
    closed spec fn view(&self) -> i64 {
        self.0
    }
}

/// Sum of a sequence of ratios.
pub open spec fn ratio_sum(s: Seq<u64>) -> int
    decreases s.len(),
{
    if s.len() == 0 {
        0
    } else {
        ratio_sum(s.drop_last()) + s.last()
    }
}

/// Sum of a sequence of `u128`s.
pub open spec fn u128_sum(s: Seq<u128>) -> int
    decreases s.len(),
{
    if s.len() == 0 {
        0
    } else {
        u128_sum(s.drop_last()) + s.last()
    }
}

/// Number of `true` entries.
pub open spec fn count_true(s: Seq<bool>) -> int
    decreases s.len(),
{
    if s.len() == 0 {
        0
    } else {
        count_true(s.drop_last()) + if s.last() { 1int } else { 0int }
    }
}

/// The floor share `|v| × r / t` of the largest-remainder method.
pub open spec fn alloc_base(v: int, r: int, t: int) -> int {
    (crate::arith::abs(v) * r) / t
}

/// The remainder `|v| × r mod t` of the largest-remainder method.
pub open spec fn alloc_rem(v: int, r: int, t: int) -> int {
    (crate::arith::abs(v) * r) % t
}

/// Position `i` with remainder `ri` precedes position `j` with remainder `rj`:
/// larger remainder first, ties broken by position.
pub open spec fn beats(ri: int, i: int, rj: int, j: int) -> bool {
    ri > rj || (ri == rj && i < j)
}

/// Quotient of `a / b` (`b > 0`) truncated toward zero.
pub open spec fn trunc_div(a: int, b: int) -> int {
    if a >= 0 {
        a / b
    } else {
        -((-a) / b)
    }
}

/// Part `i` of `distribute(n)` applied to the raw value `v`.
pub open spec fn distribute_part(v: int, n: int, i: int) -> int {
    let base = trunc_div(v, n);
    let rem = v - base * n;
    if rem >= 0 {
        if i < rem { base + 1 } else { base }
    } else {
        if i < -rem { base - 1 } else { base }
    }
}

/// The raw value at precision `q` of the decimal `m × 10^-s`, when it is exactly
/// representable there.
pub open spec fn exact_raw(m: int, s: nat, q: nat) -> Option<int> {
    let (m2, s2) = strip_zeros(m, s);
    if s2 > q {
        None
    } else {
        Some(m2 * pow10((q - s2) as nat))
    }
}

/// The raw value at precision `q` of the decimal `m × 10^-s` rounded to `q`
/// places with `mode`.
pub open spec fn rounded_raw(m: int, s: nat, q: nat, mode: RoundingStrategy) -> int {
    let (m2, s2) = round_dp_spec(m, s, q, mode);
    m2 * pow10((q - s2) as nat)
}

/// `v` rounded to a multiple of `step` (`step > 0`) with `mode`.
pub open spec fn round_to_multiple(v: int, step: int, mode: RoundingStrategy) -> int {
    round_div(v, step, mode) * step
}

/// The raw value `v` at precision `p` carries no non-zero digit beyond `scale`.
pub open spec fn fits_scale_spec(v: int, p: nat, scale: nat) -> bool {
    scale >= p || v % pow10((p - scale) as nat) == 0
}

/// Every running total of `s`, from the empty prefix to the whole, fits `i64`.
pub open spec fn prefix_sums_fit<const P: u8>(s: Seq<Amount<P>>) -> bool {
    forall|k: int| 0 <= k <= s.len() ==> crate::arith::fits_i64(#[trigger] raw_sum(s.take(k)))
}

/// Sum of the raw values of a sequence of amounts.
pub open spec fn raw_sum<const P: u8>(s: Seq<Amount<P>>) -> int
    decreases s.len(),
{
    if s.len() == 0 {
        0
    } else {
        raw_sum(s.drop_last()) + s.last()@
    }
}

impl<const P: u8> Amount<P> {
    /// The zero amount, as a value.
    pub closed spec fn zero_spec() -> Self {
        Amount(0)
    }

    /// An amount whose raw value is zero is the zero amount.
    pub proof fn lemma_zero_spec(a: Self)
        requires
            a@ == 0,
        ensures
            a == Self::zero_spec(),
    {
    }

    /// The amount with raw value `v` (meaningful when `v` fits `i64`).
    pub closed spec fn from_raw_spec(v: int) -> Self {
        Amount(v as i64)
    }

    /// An amount built from a raw value in range has that raw value, and an
    /// amount is built from its own raw value.
    pub proof fn lemma_from_raw_spec(a: Self)
        ensures
            Self::from_raw_spec(a@ as int) == a,
    {
    }

    /// The amount built from a raw value that fits `i64` has that raw value.
    pub proof fn lemma_raw_of(v: int)
        requires
            crate::arith::fits_i64(v),
        ensures
            Self::from_raw_spec(v)@ == v,
    {
    }

    /// Amounts with the same raw value are the same amount.
    pub proof fn lemma_raw_eq(a: Self, b: Self)
        requires
            a@ == b@,
        ensures
            a == b,
    {
    }

    /// Zero amount.
    pub fn zero() -> (a: Self)
        ensures
            a@ == 0,
    {
        Amount(0)
    }

    /// The maximum representable value: `i64::MAX × 10⁻ᴾ`.
    pub fn max_value() -> (a: Self)
        ensures
            a@ == i64::MAX,
    {
        Amount(i64::MAX)
    }

    /// The minimum representable value: `i64::MIN × 10⁻ᴾ`.
    pub fn min_value() -> (a: Self)
        ensures
            a@ == i64::MIN,
    {
        Amount(i64::MIN)
    }

    /// `10^P`, the raw value of one whole unit.
    pub fn scale_factor() -> (r: i64)
        requires
            P <= 18,
        ensures
            r == crate::decimal::pow10(P as nat),
    {
        let mut s: i64 = 1;
        let mut i: u8 = 0;
        while i < P
            invariant
                i <= P,
                P <= 18,
                s == crate::decimal::pow10(i as nat),
            decreases P - i,
        {
            proof { crate::arith::lemma_pow10_le_18((i + 1) as nat); }
            s = s * 10;
            i = i + 1;
        }
        s
    }

    /// Construct from a raw scaled `i64` — the value is `n × 10⁻ᴾ`.
    pub fn from_raw_units(n: i64) -> (a: Self)
        ensures
            a@ == n,
    {
        Amount(n)
    }

    /// The raw scaled `i64` representation.
    pub fn to_raw(self) -> (r: i64)
        ensures
            r == self@,
    {
        self.0
    }

    /// Whether the amount is strictly positive.
    pub fn is_positive(self) -> (r: bool)
        ensures
            r == (self@ > 0),
    {
        self.0 > 0
    }

    /// Whether the amount is negative.
    pub fn is_negative(self) -> (r: bool)
        ensures
            r == (self@ < 0),
    {
        self.0 < 0
    }

    /// Whether the amount is zero.
    pub fn is_zero(self) -> (r: bool)
        ensures
            r == (self@ == 0),
    {
        self.0 == 0
    }

    /// The sign of the amount: `-1`, `0` or `1`.
    pub fn signum(self) -> (r: i8)
        ensures
            r == (if self@ > 0 { 1int } else if self@ < 0 { -1int } else { 0int }),
    {
        if self.0 > 0 {
            1
        } else if self.0 < 0 {
            -1
        } else {
            0
        }
    }

    /// Checked addition: `Err(MonetaryOverflow)` exactly when the sum leaves `i64`.
    pub fn checked_add(self, rhs: Self) -> (r: Result<Self, BillingError>)
        ensures
            match r {
                Ok(a) => a@ == self@ + rhs@,
                Err(e) => e == BillingError::overflow_spec(P, None) && !crate::arith::fits_i64(
                    self@ + rhs@,
                ),
            },
    {
        match self.0.checked_add(rhs.0) {
            Some(v) => Ok(Amount(v)),
            None => Err(BillingError::overflow(P, None)),
        }
    }

    /// Checked subtraction: `Err(MonetaryOverflow)` exactly when the difference
    /// leaves `i64`.
    pub fn checked_sub(self, rhs: Self) -> (r: Result<Self, BillingError>)
        ensures
            match r {
                Ok(a) => a@ == self@ - rhs@,
                Err(e) => e == BillingError::overflow_spec(P, None) && !crate::arith::fits_i64(
                    self@ - rhs@,
                ),
            },
    {
        match self.0.checked_sub(rhs.0) {
            Some(v) => Ok(Amount(v)),
            None => Err(BillingError::overflow(P, None)),
        }
    }

    /// Checked negation: `Err(MonetaryOverflow)` exactly for `Amount::min_value()`.
    pub fn checked_neg(self) -> (r: Result<Self, BillingError>)
        requires
            P <= 18,
        ensures
            match r {
                Ok(a) => a@ == -self@,
                Err(e) => self@ == i64::MIN && (e matches BillingError::MonetaryOverflow { precision, input_value }
                    && precision == P && (input_value matches Some(d) && d.m() == self@ && d.s() == P)),
            },
    {
        if self.0 == i64::MIN {
            Err(BillingError::overflow(P, Some(self.into_decimal())))
        } else {
            Ok(Amount(-self.0))
        }
    }

    /// Construct from a whole number of currency units.
    ///
    /// `n × 10^P` must fit `i64`; the precondition demands it.
    pub fn from_int(n: i64) -> (a: Self)
        requires
            P <= 18,
            crate::arith::fits_i64(n * crate::decimal::pow10(P as nat)),
        ensures
            a@ == n * crate::decimal::pow10(P as nat),
    {
        let s = Self::scale_factor();
        Amount(n * s)
    }

    /// Construct from a whole number of currency units, or
    /// `Err(MonetaryOverflow)` when `n × 10^P` leaves `i64`.
    pub fn checked_from_int(n: i64) -> (r: Result<Self, BillingError>)
        requires
            P <= 18,
        ensures
            match r {
                Ok(a) => a@ == n * crate::decimal::pow10(P as nat),
                Err(e) => e == BillingError::overflow_spec(P, None) && !crate::arith::fits_i64(
                    n * crate::decimal::pow10(P as nat),
                ),
            },
    {
        let s = Self::scale_factor();
        match n.checked_mul(s) {
            Some(v) => Ok(Amount(v)),
            None => Err(BillingError::overflow(P, None)),
        }
    }

    /// Absolute value. `Amount::min_value()` has no positive counterpart; the
    /// precondition rules it out.
    pub fn abs(self) -> (a: Self)
        requires
            self@ != i64::MIN,
        ensures
            a@ == (if self@ < 0 { -self@ } else { self@ as int }),
    {
        if self.0 < 0 {
            Amount(-self.0)
        } else {
            self
        }
    }

    /// Absolute value, or `Err(MonetaryOverflow)` for `Amount::min_value()`.
    pub fn checked_abs(self) -> (r: Result<Self, BillingError>)
        requires
            P <= 18,
        ensures
            match r {
                Ok(a) => a@ == (if self@ < 0 { -self@ } else { self@ as int }),
                Err(e) => self@ == i64::MIN && (e matches BillingError::MonetaryOverflow { precision, input_value }
                    && precision == P && (input_value matches Some(d) && d.m() == self@ && d.s() == P)),
            },
    {
        if self.0 == i64::MIN {
            Err(BillingError::overflow(P, Some(self.into_decimal())))
        } else if self.0 < 0 {
            Ok(Amount(-self.0))
        } else {
            Ok(self)
        }
    }

    /// Convert to a [`Decimal`] — lossless, exact: `self@ × 10^-P`.
    pub fn into_decimal(self) -> (d: Decimal)
        requires
            P <= 18,
        ensures
            d.m() == self@,
            d.s() == P,
    {
        Decimal::new(self.0, P as u32)
    }

    /// The amount written with exactly `P` decimal places, as its `Display`
    /// writes it.
    pub fn to_string(&self) -> (r: String)
        requires
            P <= 18,
        ensures
            r@ == crate::decimal::decimal_fixed_text(self@ as int, P as nat, P as nat),
    {
        self.into_decimal().to_fixed_text(P as u32)
    }

    /// `|self − expected| × 1_000_000 ≤ |expected| × ppm`, or exact equality
    /// with zero when `expected` is zero. Total: never fails, never panics.
    pub fn within_tolerance_ppm(self, expected: Self, ppm: u32) -> (r: bool)
        ensures
            r == (if expected@ == 0 {
                self@ == 0
            } else {
                crate::arith::abs(self@ - expected@) * 1_000_000 <= crate::arith::abs(
                    expected@ as int,
                ) * ppm
            }),
    {
        if expected.0 == 0 {
            return self.0 == 0;
        }
        let diff: i128 = (self.0 as i128) - (expected.0 as i128);
        let diff_abs: i128 = if diff < 0 { -diff } else { diff };
        let exp_abs: i128 = if expected.0 < 0 { -(expected.0 as i128) } else { expected.0 as i128 };
        assert(diff_abs * 1_000_000 <= 0x1_0000_0000_0000_0000 * 1_000_000) by (nonlinear_arith)
            requires 0 <= diff_abs <= 0x1_0000_0000_0000_0000;
        assert(exp_abs * (ppm as int) <= 0x1_0000_0000_0000_0000 * 0x1_0000_0000) by (nonlinear_arith)
            requires 0 <= exp_abs <= 0x1_0000_0000_0000_0000, 0 <= ppm <= 0x1_0000_0000;
        let lhs: i128 = diff_abs * 1_000_000;
        let rhs: i128 = exp_abs * (ppm as i128);
        lhs <= rhs
    }

    /// Fallible sum: `Err(MonetaryOverflow)` exactly when some running total
    /// leaves `i64`.
    pub fn checked_sum(items: &[Self]) -> (r: Result<Self, BillingError>)
        ensures
            match r {
                Ok(a) => a@ == raw_sum(items@) && prefix_sums_fit(items@),
                Err(e) => e == BillingError::overflow_spec(P, None) && !prefix_sums_fit(items@),
            },
    {
        let mut acc = Amount::<P>(0);
        let mut i: usize = 0;
        assert(items@.take(0) =~= Seq::<Amount<P>>::empty());
        while i < items.len()
            invariant
                i <= items@.len(),
                acc@ == raw_sum(items@.take(i as int)),
                forall|k: int| 0 <= k <= i ==> crate::arith::fits_i64(#[trigger] raw_sum(items@.take(k))),
            decreases items.len() - i,
        {
            assert(items@.take(i + 1).drop_last() =~= items@.take(i as int));
            match acc.checked_add(items[i]) {
                Ok(v) => {
                    acc = v;
                }
                Err(e) => {
                    assert(!crate::arith::fits_i64(raw_sum(items@.take(i + 1))));
                    return Err(e);
                }
            }
            i = i + 1;
            assert(crate::arith::fits_i64(raw_sum(items@.take(i as int))));
        }
        assert(items@.take(items@.len() as int) =~= items@);
        Ok(acc)
    }

    /// Round to the nearest multiple of `increment` with `strategy` — cash
    /// rounding. Exact integer arithmetic.
    pub fn round_to_increment(self, increment: Self, strategy: RoundingStrategy) -> (r: Result<
        Self,
        BillingError,
    >)
        requires
            P <= 18,
        ensures
            increment@ <= 0 ==> r is Err && r->Err_0 is InvalidInput,
            increment@ > 0 ==> match r {
                Ok(a) => a@ == round_to_multiple(self@ as int, increment@ as int, strategy),
                Err(e) => e == BillingError::overflow_spec(P, None) && !crate::arith::fits_i64(
                    round_to_multiple(self@ as int, increment@ as int, strategy),
                ),
            },
    {
        if increment.0 <= 0 {
            return Err(BillingError::InvalidInput {
                reason: crate::text::join3("cash-rounding increment must be > 0, got ", increment.to_string().as_str(), ""),
            });
        }
        let value = self.0 as i128;
        let step = increment.0 as i128;
        proof {
            crate::arith::lemma_div_bounds(value as int, step as int);
            crate::arith::lemma_div_bounds(value as int / step as int, 2);
        }
        let q = value.checked_div_euclid(step).unwrap();
        let rem = value.checked_rem_euclid(step).unwrap();
        let twice = rem * 2;
        let round_up = match strategy {
            RoundingStrategy::Floor => false,
            RoundingStrategy::Ceiling => rem != 0,
            RoundingStrategy::Truncate => value < 0 && rem != 0,
            RoundingStrategy::MidpointAwayFromZero => {
                if value >= 0 {
                    twice >= step
                } else {
                    twice > step
                }
            },
            RoundingStrategy::MidpointToEven => {
                if twice > step {
                    true
                } else if twice < step {
                    false
                } else {
                    q.checked_rem_euclid(2).unwrap() != 0
                }
            },
        };
        let multiple: i128 = if round_up { q + 1 } else { q };
        proof {
            assert(multiple == round_div(value as int, step as int, strategy));
            crate::arith::lemma_round_div_bounds(value as int, step as int, strategy);
            assert(-0x8000_0000_0000_0001 <= multiple <= 0x8000_0000_0000_0000);
            assert(-0x8000_0000_0000_0001 * 0x7fff_ffff_ffff_ffff <= multiple * step
                <= 0x8000_0000_0000_0000 * 0x7fff_ffff_ffff_ffff) by (nonlinear_arith)
                requires
                    -0x8000_0000_0000_0001 <= multiple <= 0x8000_0000_0000_0000,
                    1 <= step <= 0x7fff_ffff_ffff_ffff,
            ;
        }
        let scaled: i128 = multiple * step;
        if scaled < i64::MIN as i128 || scaled > i64::MAX as i128 {
            Err(BillingError::overflow(P, None))
        } else {
            Ok(Amount(scaled as i64))
        }
    }

    /// `10^(P − scale)` as a raw increment, or `None` when `scale >= P`.
    fn scale_increment(scale: u8) -> (r: Option<i64>)
        requires
            P <= 18,
        ensures
            scale >= P ==> r is None,
            scale < P ==> r == Some(crate::decimal::pow10((P - scale) as nat) as i64)
                && 1 <= crate::decimal::pow10((P - scale) as nat) <= 1_000_000_000_000_000_000,
    {
        if scale >= P {
            return None;
        }
        let mut increment: i64 = 1;
        let mut i: u8 = 0;
        while i < P - scale
            invariant
                scale < P <= 18,
                i <= P - scale,
                increment == crate::decimal::pow10(i as nat),
            decreases P - scale - i,
        {
            proof { crate::arith::lemma_pow10_le_18((i + 1) as nat); }
            increment = increment * 10;
            i = i + 1;
        }
        proof { crate::arith::lemma_pow10_le_18((P - scale) as nat); }
        Some(increment)
    }

    /// Round to at most `scale` decimal places, keeping the type: the result's
    /// trailing `P − scale` digits are zero. `scale >= P` is a no-op.
    pub fn round_to_scale(self, scale: u8, strategy: RoundingStrategy) -> (r: Result<
        Self,
        BillingError,
    >)
        requires
            P <= 18,
        ensures
            scale >= P ==> r == Ok::<Self, BillingError>(self),
            scale < P ==> match r {
                Ok(a) => a@ == round_to_multiple(
                    self@ as int,
                    crate::decimal::pow10((P - scale) as nat),
                    strategy,
                ),
                Err(e) => e == BillingError::overflow_spec(P, None) && !crate::arith::fits_i64(
                    round_to_multiple(
                        self@ as int,
                        crate::decimal::pow10((P - scale) as nat),
                        strategy,
                    ),
                ),
            },
    {
        match Self::scale_increment(scale) {
            None => Ok(self),
            Some(increment) => self.round_to_increment(Amount(increment), strategy),
        }
    }

    /// Whether this value fits in `scale` decimal places without rounding.
    pub fn fits_scale(self, scale: u8) -> (r: bool)
        requires
            P <= 18,
        ensures
            r == fits_scale_spec(self@ as int, P as nat, scale as nat),
    {
        match Self::scale_increment(scale) {
            None => true,
            Some(increment) => self.0.checked_rem_euclid(increment).unwrap() == 0,
        }
    }

    /// Split into `n` parts that sum exactly back to `self`: every part is the
    /// truncated quotient, and the leading `|remainder|` parts carry one extra
    /// smallest unit in the direction of the remainder's sign.
    pub fn distribute(self, n: usize) -> (r: Result<Vec<Self>, BillingError>)
        ensures
            (n == 0 || n > i64::MAX) <==> r is Err,
            r matches Err(e) ==> e is InvalidInput,
            r matches Ok(parts) ==> {
                &&& parts.len() == n
                &&& raw_sum(parts@) == self@
                &&& forall|i: int| 0 <= i < n ==> (#[trigger] parts@[i])@ == distribute_part(self@ as int, n as int, i)
            },
    {
        if n == 0 {
            return Err(BillingError::invalid_input("distribute requires n > 0"));
        }
        if n as u64 > i64::MAX as u64 {
            return Err(BillingError::InvalidInput {
                reason: crate::text::join3("distribute: n = ", crate::text::usize_text(n).as_str(), " is too large"),
            });
        }
        let n_i = n as i64;
        let base = self.0.checked_div(n_i).unwrap();
        let rem = self.0.checked_rem(n_i).unwrap();
        proof {
            crate::arith::lemma_trunc_div(self.0 as int, n_i as int);
        }
        let step: i64 = if rem >= 0 { 1 } else { -1 };
        let extra: u64 = if rem >= 0 { rem as u64 } else { (-rem) as u64 };
        let mut parts: Vec<Self> = Vec::new();
        let mut i: usize = 0;
        while i < n
            invariant
                n == n_i,
                1 <= n_i,
                i <= n,
                base == trunc_div(self@ as int, n_i as int),
                rem == self@ - base * n_i,
                crate::arith::abs(rem as int) < n_i,
                step == (if rem >= 0 { 1int } else { -1int }),
                extra == crate::arith::abs(rem as int),
                parts@.len() == i,
                forall|j: int| 0 <= j < i ==> (#[trigger] parts@[j])@ == distribute_part(self@ as int, n as int, j),
                raw_sum(parts@) == i * base + (if i < extra { i as int } else { extra as int }) * step,
            decreases n - i,
        {
            proof {
                crate::arith::lemma_trunc_div(self.0 as int, n_i as int);
                if (i as u64) < extra {
                    assert(n_i >= 2);
                }
            }
            let v = if (i as u64) < extra { base + step } else { base };
            let ghost old_parts = parts@;
            parts.push(Amount(v));
            proof {
                assert(parts@.drop_last() =~= old_parts);
                assert(raw_sum(parts@) == raw_sum(old_parts) + v);
                if (i as u64) < extra {
                    assert((i + 1) * base + (i + 1) * step == i * base + i * step + base + step) by (nonlinear_arith);
                } else {
                    assert((i + 1) * base == i * base + base) by (nonlinear_arith);
                }
            }
            i = i + 1;
        }
        proof {
            assert(n * base + extra * step == self@) by (nonlinear_arith)
                requires
                    rem == self@ - base * n,
                    extra * step == rem,
            ;
        }
        Ok(parts)
    }

    /// Split proportionally to integer `ratios`, summing exactly back to `self`
    /// (largest-remainder method).
    ///
    /// Each part's magnitude is `floor(|self| × ratio / Σratios)` plus a bonus of
    /// one smallest unit; the bonuses go to the parts with the largest
    /// remainders, ties broken by position, and the parts take the sign of `self`.
    pub fn allocate(self, ratios: &[u64]) -> (r: Result<Vec<Self>, BillingError>)
        ensures
            (ratios@.len() == 0 || ratio_sum(ratios@) == 0) <==> r is Err,
            r matches Err(e) ==> e is InvalidInput,
            r matches Ok(parts) ==> {
                let v = self@ as int;
                let t = ratio_sum(ratios@);
                &&& parts.len() == ratios.len()
                &&& raw_sum(parts@) == self@
                &&& forall|i: int| 0 <= i < ratios.len() ==> {
                    let bonus = crate::arith::abs((#[trigger] parts@[i])@ as int) - alloc_base(v, ratios@[i] as int, t);
                    &&& 0 <= bonus <= 1
                    &&& (v >= 0 ==> parts@[i]@ >= 0)
                    &&& (v < 0 ==> parts@[i]@ <= 0)
                }
                &&& forall|i: int, j: int| 0 <= i < ratios.len() && 0 <= j < ratios.len()
                    && crate::arith::abs((#[trigger] parts@[i])@ as int) > alloc_base(v, ratios@[i] as int, t)
                    && crate::arith::abs((#[trigger] parts@[j])@ as int) == alloc_base(v, ratios@[j] as int, t)
                    ==> beats(alloc_rem(v, ratios@[i] as int, t), i, alloc_rem(v, ratios@[j] as int, t), j)
            },
    {
        let n = ratios.len();
        if n == 0 {
            return Err(BillingError::invalid_input("allocate requires at least one ratio"));
        }
        let mut total: u128 = 0;
        let mut k: usize = 0;
        while k < n
            invariant
                n == ratios@.len(),
                k <= n,
                total == ratio_sum(ratios@.take(k as int)),
                total <= k * 0xffff_ffff_ffff_ffff,
            decreases n - k,
        {
            assert(ratios@.take(k + 1).drop_last() =~= ratios@.take(k as int));
            total = total + ratios[k] as u128;
            k = k + 1;
        }
        assert(ratios@.take(n as int) =~= ratios@);
        if total == 0 {
            return Err(BillingError::invalid_input("allocate requires the ratios to sum to more than zero"));
        }
        let ghost v = self@ as int;
        let ghost t = total as int;
        let neg = self.0 < 0;
        let mag: u128 = if neg { (-(self.0 as i128)) as u128 } else { self.0 as u128 };
        assert(mag == crate::arith::abs(v));
        let mut bases: Vec<u128> = Vec::new();
        let mut rems: Vec<u128> = Vec::new();
        let mut allocated: u128 = 0;
        let ghost mut rem_sum: int = 0;
        let mut i: usize = 0;
        while i < n
            invariant
                n == ratios@.len(),
                t == total == ratio_sum(ratios@),
                total >= 1,
                mag == crate::arith::abs(v),
                mag <= 0x8000_0000_0000_0000,
                i <= n,
                bases@.len() == i,
                rems@.len() == i,
                forall|j: int| 0 <= j < i ==> (#[trigger] bases@[j]) == alloc_base(v, ratios@[j] as int, t),
                forall|j: int| 0 <= j < i ==> (#[trigger] rems@[j]) == alloc_rem(v, ratios@[j] as int, t),
                allocated * t + rem_sum == mag * ratio_sum(ratios@.take(i as int)),
                0 <= rem_sum <= i * (t - 1),
                allocated <= mag,
                u128_sum(bases@) == allocated,
            decreases n - i,
        {
            let r = ratios[i] as u128;
            assert(mag * r <= 0x8000_0000_0000_0000 * 0xffff_ffff_ffff_ffff) by (nonlinear_arith)
                requires mag <= 0x8000_0000_0000_0000, r <= 0xffff_ffff_ffff_ffff;
            let numer: u128 = mag * r;
            let q = numer / total;
            let rm = numer % total;
            proof {
                crate::arith::lemma_div_bounds(numer as int, t);
                assert(ratios@.take(i + 1).drop_last() =~= ratios@.take(i as int));
                crate::arith::lemma_ratio_prefix_le(ratios@, i + 1);
                assert(mag * ratio_sum(ratios@.take(i + 1)) == mag * ratio_sum(ratios@.take(i as int)) + mag * r)
                    by (nonlinear_arith)
                    requires ratio_sum(ratios@.take(i + 1)) == ratio_sum(ratios@.take(i as int)) + r;
                assert((allocated + q) * t == allocated * t + q * t) by (nonlinear_arith);
                assert((allocated + q) * t <= mag * t) by (nonlinear_arith)
                    requires
                        (allocated + q) * t + rem_sum + rm == mag * ratio_sum(ratios@.take(i + 1)),
                        ratio_sum(ratios@.take(i + 1)) <= t,
                        rem_sum >= 0, rm >= 0, mag >= 0;
                assert(allocated + q <= mag) by (nonlinear_arith)
                    requires (allocated + q) * t <= mag * t, t >= 1;
            }
            let ghost old_bases = bases@;
            bases.push(q);
            rems.push(rm);
            allocated = allocated + q;
            proof {
                assert(bases@.drop_last() =~= old_bases);
                assert(rem_sum + rm <= (i + 1) * (t - 1)) by (nonlinear_arith)
                    requires rem_sum <= i * (t - 1), rm <= t - 1;
                rem_sum = rem_sum + rm;
            }
            i = i + 1;
        }
        assert(ratios@.take(n as int) =~= ratios@);
        let mut shortfall: u128 = mag - allocated;
        proof {
            assert(shortfall * t == rem_sum) by (nonlinear_arith)
                requires allocated * t + rem_sum == mag * t, shortfall == mag - allocated;
            if shortfall >= n {
                assert(shortfall * t >= n * t) by (nonlinear_arith)
                    requires shortfall >= n, t >= 1;
                assert(n * t > n * (t - 1)) by (nonlinear_arith)
                    requires n >= 1, t >= 1;
            }
        }
        let mut parts: Vec<u128> = bases.clone();
        let mut chosen: Vec<bool> = Vec::new();
        let mut c: usize = 0;
        while c < n
            invariant
                c <= n,
                chosen@.len() == c,
                forall|j: int| 0 <= j < c ==> !(#[trigger] chosen@[j]),
                count_true(chosen@) == 0,
            decreases n - c,
        {
            let ghost old_chosen = chosen@;
            chosen.push(false);
            assert(chosen@.drop_last() =~= old_chosen);
            c = c + 1;
        }
        let ghost mut n_chosen: int = 0;
        while shortfall > 0
            invariant
                n == ratios@.len() == parts@.len() == chosen@.len() == bases@.len() == rems@.len(),
                t == total == ratio_sum(ratios@),
                mag == crate::arith::abs(v),
                mag <= 0x8000_0000_0000_0000,
                forall|j: int| 0 <= j < n ==> (#[trigger] bases@[j]) == alloc_base(v, ratios@[j] as int, t),
                forall|j: int| 0 <= j < n ==> (#[trigger] rems@[j]) == alloc_rem(v, ratios@[j] as int, t),
                forall|j: int| 0 <= j < n ==> (#[trigger] parts@[j]) == bases@[j] + (if chosen@[j] { 1int } else { 0int }),
                u128_sum(parts@) + shortfall == mag,
                n_chosen + shortfall < n + 0,
                n_chosen == count_true(chosen@),
                forall|a: int, b: int| 0 <= a < n && 0 <= b < n && #[trigger] chosen@[a] && !#[trigger] chosen@[b]
                    ==> beats(rems@[a] as int, a, rems@[b] as int, b),
            decreases shortfall,
        {
            proof { crate::arith::lemma_count_true_lt(chosen@); }
            let mut best: usize = 0;
            let mut found = false;
            let mut j: usize = 0;
            while j < n
                invariant
                    n == chosen@.len() == rems@.len(),
                    j <= n,
                    found ==> best < j && !chosen@[best as int],
                    found ==> forall|k: int| 0 <= k < j && !chosen@[k] ==> k == best || beats(rems@[best as int] as int, best as int, #[trigger] rems@[k] as int, k),
                    !found ==> forall|k: int| 0 <= k < j ==> #[trigger] chosen@[k],
                decreases n - j,
            {
                if !chosen[j] {
                    if !found || rems[j] > rems[best] {
                        best = j;
                        found = true;
                    }
                }
                j = j + 1;
            }
            proof {
                if !found {
                    crate::arith::lemma_all_true_count(chosen@);
                }
            }
            let ghost old_parts = parts@;
            let ghost old_chosen = chosen@;
            proof {
                crate::arith::lemma_u128_sum_le_each(parts@, best as int);
            }
            let p = parts[best] + 1;
            parts.set(best, p);
            chosen.set(best, true);
            proof {
                crate::arith::lemma_u128_sum_update(old_parts, best as int, p as int);
                crate::arith::lemma_count_true_set(old_chosen, best as int);
                n_chosen = n_chosen + 1;
            }
            shortfall = shortfall - 1;
        }
        let mut out: Vec<Self> = Vec::new();
        let mut m: usize = 0;
        while m < n
            invariant
                n == ratios@.len() == parts@.len(),
                m <= n,
                out@.len() == m,
                u128_sum(parts@) == mag,
                mag == crate::arith::abs(v),
                v == self@,
                neg == (v < 0),
                forall|k: int| 0 <= k < m ==> (#[trigger] out@[k])@ == (if neg { -(parts@[k] as int) } else { parts@[k] as int }),
                raw_sum(out@) == (if neg { -u128_sum(parts@.take(m as int)) } else { u128_sum(parts@.take(m as int)) }),
            decreases n - m,
        {
            proof {
                crate::arith::lemma_u128_sum_le_each(parts@, m as int);
                assert(parts@.take(m + 1).drop_last() =~= parts@.take(m as int));
            }
            let p = parts[m];
            let x: i64 = if neg { (-(p as i128)) as i64 } else { p as i64 };
            let ghost old_out = out@;
            out.push(Amount(x));
            proof {
                assert(out@.drop_last() =~= old_out);
            }
            m = m + 1;
        }
        proof {
            assert(parts@.take(n as int) =~= parts@);
            assert forall|i: int| 0 <= i < n implies {
                let bonus = crate::arith::abs((#[trigger] out@[i])@ as int) - alloc_base(v, ratios@[i] as int, t);
                &&& 0 <= bonus <= 1
                &&& (v >= 0 ==> out@[i]@ >= 0)
                &&& (v < 0 ==> out@[i]@ <= 0)
            } by {
                assert(parts@[i] == bases@[i] + (if chosen@[i] { 1int } else { 0int }));
            }
            assert forall|i: int, j: int| 0 <= i < n && 0 <= j < n
                && crate::arith::abs((#[trigger] out@[i])@ as int) > alloc_base(v, ratios@[i] as int, t)
                && crate::arith::abs((#[trigger] out@[j])@ as int) == alloc_base(v, ratios@[j] as int, t)
                implies beats(alloc_rem(v, ratios@[i] as int, t), i, alloc_rem(v, ratios@[j] as int, t), j) by {
                assert(parts@[i] == bases@[i] + (if chosen@[i] { 1int } else { 0int }));
                assert(parts@[j] == bases@[j] + (if chosen@[j] { 1int } else { 0int }));
                assert(chosen@[i] && !chosen@[j]);
            }
        }
        Ok(out)
    }

    /// Construct from a [`Decimal`] — exact, never rounding.
    ///
    /// `Err(PrecisionLoss)` when the decimal carries a non-zero digit beyond `P`
    /// places (trailing zeros are fine); `Err(MonetaryOverflow)` when the scaled
    /// value leaves `i64`.
    pub fn checked_from_decimal(d: Decimal) -> (r: Result<Self, BillingError>)
        requires
            P <= 18,
        ensures
            match exact_raw(d.m(), d.s(), P as nat) {
                None => r == Err::<Self, BillingError>(BillingError::PrecisionLoss { precision: P, input_value: d }),
                Some(x) => if crate::arith::fits_i64(x) {
                    r matches Ok(a) && a@ == x
                } else {
                    r == Err::<Self, BillingError>(BillingError::overflow_spec(P, Some(d)))
                },
            },
    {
        let nd = d.normalize();
        let s = nd.scale();
        if s > P as u32 {
            return Err(BillingError::PrecisionLoss { precision: P, input_value: d });
        }
        Self::raw_at_precision(nd.mantissa(), s, d)
    }

    /// `m × 10^(P − s)` as an amount (`s <= P`), or the overflow error naming `d`.
    fn raw_at_precision(m: i128, s: u32, d: Decimal) -> (r: Result<Self, BillingError>)
        requires
            P <= 18,
            s <= P,
            -crate::decimal::MAX_MANTISSA <= m <= crate::decimal::MAX_MANTISSA,
        ensures
            ({
                let x = m * pow10((P - s) as nat);
                if crate::arith::fits_i64(x) {
                    r matches Ok(a) && a@ == x
                } else {
                    r == Err::<Self, BillingError>(BillingError::overflow_spec(P, Some(d)))
                }
            }),
    {
        let mut f: i128 = 1;
        let mut i: u32 = 0;
        while i < P as u32 - s
            invariant
                s <= P <= 18,
                i <= P - s,
                f == pow10(i as nat),
            decreases P - s - i,
        {
            proof { crate::arith::lemma_pow10_le_18((i + 1) as nat); }
            f = f * 10;
            i = i + 1;
        }
        match m.checked_mul(f) {
            None => {
                proof {
                    crate::arith::lemma_pow10_le_18((P - s) as nat);
                }
                Err(BillingError::overflow(P, Some(d)))
            },
            Some(x) => {
                if x < i64::MIN as i128 || x > i64::MAX as i128 {
                    Err(BillingError::overflow(P, Some(d)))
                } else {
                    Ok(Amount(x as i64))
                }
            },
        }
    }

    /// Construct from a [`Decimal`], rounding to `P` places with `strategy`;
    /// `Err(MonetaryOverflow)` when the rounded value leaves `i64`.
    pub fn from_decimal_rounded(d: Decimal, strategy: RoundingStrategy) -> (r: Result<
        Self,
        BillingError,
    >)
        requires
            P <= 18,
        ensures
            ({
                let x = rounded_raw(d.m(), d.s(), P as nat, strategy);
                if crate::arith::fits_i64(x) {
                    r matches Ok(a) && a@ == x
                } else {
                    r == Err::<Self, BillingError>(BillingError::overflow_spec(P, Some(d)))
                }
            }),
    {
        let rounded = d.round_dp_with_strategy(P as u32, strategy);
        Self::raw_at_precision(rounded.mantissa(), rounded.scale(), d)
    }

    /// Round to precision `Q`; `Err(MonetaryOverflow)` when the result leaves
    /// `i64` (only possible when widening).
    pub fn checked_round_to<const Q: u8>(self, strategy: RoundingStrategy) -> (r: Result<
        Amount<Q>,
        BillingError,
    >)
        requires
            P <= 18,
            Q <= 18,
        ensures
            ({
                let x = rounded_raw(self@ as int, P as nat, Q as nat, strategy);
                match r {
                    Ok(a) => a@ == x,
                    Err(e) => !crate::arith::fits_i64(x) && e is MonetaryOverflow,
                }
            }),
    {
        Amount::<Q>::from_decimal_rounded(self.into_decimal(), strategy)
    }

    /// Round to precision `Q`. The result must fit `i64`; the precondition
    /// demands it.
    pub fn round_to<const Q: u8>(self, strategy: RoundingStrategy) -> (a: Amount<Q>)
        requires
            P <= 18,
            Q <= 18,
            crate::arith::fits_i64(rounded_raw(self@ as int, P as nat, Q as nat, strategy)),
        ensures
            a@ == rounded_raw(self@ as int, P as nat, Q as nat, strategy),
    {
        match self.checked_round_to::<Q>(strategy) {
            Ok(a) => a,
            Err(_) => {
                proof { assert(false); }
                Amount(0)
            },
        }
    }

    /// Convert to `Q` decimals without rounding, or fail: `Err(InvalidInput)`
    /// when the value does not fit `Q` places, `Err(MonetaryOverflow)` when it
    /// leaves `Amount<Q>`'s range.
    pub fn exact_to<const Q: u8>(self) -> (r: Result<Amount<Q>, BillingError>)
        requires
            P <= 18,
            Q <= 18,
        ensures
            (Q < P && !fits_scale_spec(self@ as int, P as nat, Q as nat)) ==> r is Err && r->Err_0 is InvalidInput,
            !(Q < P && !fits_scale_spec(self@ as int, P as nat, Q as nat)) ==> match exact_raw(self@ as int, P as nat, Q as nat) {
                None => r == Err::<Amount<Q>, BillingError>(
                    BillingError::PrecisionLoss { precision: Q, input_value: Decimal::value_of(self@ as int, P as nat) },
                ),
                Some(x) => if crate::arith::fits_i64(x) {
                    r matches Ok(a) && a@ == x
                } else {
                    r == Err::<Amount<Q>, BillingError>(
                        BillingError::overflow_spec(Q, Some(Decimal::value_of(self@ as int, P as nat))),
                    )
                },
            },
    {
        if Q < P && !self.fits_scale(Q) {
            let mut reason = crate::text::join3(
                self.to_string().as_str(),
                " does not fit ",
                crate::text::usize_text(Q as usize).as_str(),
            );
            reason.append(" decimal places exactly; rebuild the document at that scale rather than rounding here");
            return Err(BillingError::InvalidInput { reason });
        }
        let d = self.into_decimal();
        proof {
            Decimal::lemma_value_of(d);
        }
        Amount::<Q>::checked_from_decimal(d)
    }

    /// Multiply a per-unit price by a quantity, rounding the product to `P`
    /// places half away from zero. `Err(MonetaryOverflow)` when `rust_decimal`
    /// cannot form the product or the rounded result leaves `i64`.
    pub fn checked_mul_qty(self, qty: Decimal) -> (r: Result<Self, BillingError>)
        requires
            P <= 18,
        ensures
            match crate::decimal::decimal_product(self@ as int, P as nat, qty.m(), qty.s()) {
                None => r == Err::<Self, BillingError>(BillingError::overflow_spec(P, None)),
                Some((pm, ps)) => {
                    let x = rounded_raw(pm, ps, P as nat, RoundingStrategy::MidpointAwayFromZero);
                    match r {
                        Ok(a) => a@ == x,
                        Err(e) => !crate::arith::fits_i64(x) && e is MonetaryOverflow,
                    }
                },
            },
            (self@ == 0 || qty.m() == 0) ==> (r matches Ok(a) && a@ == 0),
            (self@ != 0 && qty.m() != 0 && qty.s() + P <= crate::decimal::MAX_SCALE
                && -crate::decimal::MAX_MANTISSA <= self@ * qty.m() <= crate::decimal::MAX_MANTISSA)
                ==> ({
                let x = rounded_raw(self@ * qty.m(), (P + qty.s()) as nat, P as nat, RoundingStrategy::MidpointAwayFromZero);
                match r {
                    Ok(a) => a@ == x,
                    Err(e) => !crate::arith::fits_i64(x) && e is MonetaryOverflow,
                }
            }),
    {
        let product = match self.into_decimal().checked_mul(&qty) {
            Some(p) => p,
            None => {
                return Err(BillingError::overflow(P, None));
            },
        };
        proof {
            if self@ == 0 || qty.m() == 0 {
                assert(round_dp_spec(0, 0, P as nat, RoundingStrategy::MidpointAwayFromZero) == (0int, 0nat));
                let pw = pow10(P as nat);
                assert(0 * pw == 0) by (nonlinear_arith);
                assert(rounded_raw(0, 0, P as nat, RoundingStrategy::MidpointAwayFromZero) == 0 * pw);
                assert(crate::arith::fits_i64(0));
            }
        }
        match Self::from_decimal_rounded(product, RoundingStrategy::MidpointAwayFromZero) {
            Ok(_) => Ok(self.mul_qty(qty)),
            Err(e) => Err(e),
        }
    }

    /// Multiply by a quantity. The product must fit `i64`; the precondition
    /// demands it.
    pub fn mul_qty(self, qty: Decimal) -> (a: Self)
        requires
            P <= 18,
            match crate::decimal::decimal_product(self@ as int, P as nat, qty.m(), qty.s()) {
                None => false,
                Some((pm, ps)) => crate::arith::fits_i64(
                    rounded_raw(pm, ps, P as nat, RoundingStrategy::MidpointAwayFromZero),
                ),
            },
        ensures
            match crate::decimal::decimal_product(self@ as int, P as nat, qty.m(), qty.s()) {
                None => false,
                Some((pm, ps)) => a@ == rounded_raw(pm, ps, P as nat, RoundingStrategy::MidpointAwayFromZero),
            },
    {
        let product = match self.into_decimal().checked_mul(&qty) {
            Some(p) => p,
            None => {
                return Amount(0);
            },
        };
        match Self::from_decimal_rounded(product, RoundingStrategy::MidpointAwayFromZero) {
            Ok(a) => a,
            Err(_) => Amount(0),
        }
    }

    /// Divide by a decimal divisor, rounding the quotient to `P` places half away
    /// from zero. `Err(InvalidInput)` on a zero divisor or when `rust_decimal`
    /// cannot form the quotient; `Err(MonetaryOverflow)` when the rounded result
    /// leaves `i64`.
    pub fn checked_div(self, divisor: Decimal) -> (r: Result<Self, BillingError>)
        requires
            P <= 18,
        ensures
            divisor.m() == 0 ==> r is Err && r->Err_0 is InvalidInput,
            match crate::decimal::decimal_quotient(self@ as int, P as nat, divisor.m(), divisor.s()) {
                None => r is Err && r->Err_0 is InvalidInput,
                Some((qm, qs)) => {
                    let x = rounded_raw(qm, qs, P as nat, RoundingStrategy::MidpointAwayFromZero);
                    match r {
                        Ok(a) => a@ == x,
                        Err(e) => !crate::arith::fits_i64(x) && e is MonetaryOverflow,
                    }
                },
            },
    {
        let q = match self.into_decimal().checked_div(&divisor) {
            Some(q) => q,
            None => {
                let mut reason = crate::text::join3(
                    "division by zero or overflow: ",
                    self.to_string().as_str(),
                    " / ",
                );
                reason.append(divisor.to_text().as_str());
                return Err(BillingError::InvalidInput { reason });
            },
        };
        Self::from_decimal_rounded(q, RoundingStrategy::MidpointAwayFromZero)
    }
}

/// The exact conversion of a decimal to an amount at `P` places:
/// `PrecisionLoss` where it carries a non-zero digit beyond `P`,
/// `MonetaryOverflow` where the value leaves `i64`.
pub open spec fn amount_of<const P: u8>(d: Decimal) -> Result<Amount<P>, BillingError> {
    if P > 18 {
        Err(BillingError::overflow_spec(P, Some(d)))
    } else {
        match exact_raw(d.m(), d.s(), P as nat) {
            None => Err(BillingError::PrecisionLoss { precision: P, input_value: d }),
            Some(x) => if crate::arith::fits_i64(x) {
                Ok(Amount::<P>::from_raw_spec(x))
            } else {
                Err(BillingError::overflow_spec(P, Some(d)))
            },
        }
    }
}

impl<const P: u8> TryFrom<Decimal> for Amount<P> {
    type Error = BillingError;

    /// [`Amount::checked_from_decimal`].
    fn try_from(d: Decimal) -> (r: Result<Amount<P>, BillingError>) {
        if P > 18 {
            return Err(BillingError::overflow(P, Some(d)));
        }
        let r = Self::checked_from_decimal(d);
        proof {
            if r is Ok {
                Amount::<P>::lemma_from_raw_spec(r->Ok_0);
            }
        }
        r
    }
}

impl<const P: u8> TryFromSpecImpl<Decimal> for Amount<P> {
    open spec fn obeys_try_from_spec() -> bool {
        true
    }

    open spec fn try_from_spec(d: Decimal) -> Result<Amount<P>, BillingError> {
        amount_of::<P>(d)
    }
}

} // verus!
