//! Arithmetic facts used across the proofs.
use vstd::prelude::*;

use crate::amount::{count_true, ratio_sum, u128_sum, RoundingStrategy};
use crate::decimal::{aligned_fits, at_scale, difference_exact, max_scale, pow10, rescaled, round_div, strip_zeros, Decimal, MAX_MANTISSA};

verus! {

/// `n` lies in the range of `i64`.
pub open spec fn fits_i64(n: int) -> bool {
    i64::MIN <= n <= i64::MAX
}

/// Absolute value.
pub open spec fn abs(n: int) -> int {
    if n < 0 {
        -n
    } else {
        n
    }
}

/// `10^n` is at least one, and for `n <= 18` it fits in an `i64`.
pub proof fn lemma_pow10_le_18(n: nat)
    requires
        n <= 18,
    ensures
        1 <= pow10(n) <= 1_000_000_000_000_000_000,
{
    lemma_pow10_add(n, (18 - n) as nat);
    lemma_pow10_pos(n);
    lemma_pow10_pos((18 - n) as nat);
    assert(pow10(18) == 1_000_000_000_000_000_000) by {
        reveal_with_fuel(pow10, 19);
    }
    let a = pow10(n);
    let b = pow10((18 - n) as nat);
    assert(a * b == 1_000_000_000_000_000_000);
    assert(a <= a * b) by (nonlinear_arith)
        requires
            a >= 1,
            b >= 1,
    ;
}

/// `10^n` is positive.
pub proof fn lemma_pow10_pos(n: nat)
    ensures
        pow10(n) >= 1,
    decreases n,
{
    if n > 0 {
        lemma_pow10_pos((n - 1) as nat);
    }
}

/// `10^(a + b) = 10^a × 10^b`.
pub proof fn lemma_pow10_add(a: nat, b: nat)
    ensures
        pow10(a + b) == pow10(a) * pow10(b),
    decreases a,
{
    if a > 0 {
        lemma_pow10_add((a - 1) as nat, b);
        assert(pow10(a + b) == 10 * pow10((a - 1 + b) as nat));
        assert(10 * (pow10((a - 1) as nat) * pow10(b)) == (10 * pow10((a - 1) as nat)) * pow10(b))
            by (nonlinear_arith);
    }
}

/// `10^n` grows with `n`.
pub proof fn lemma_pow10_mono(a: nat, b: nat)
    requires
        a <= b,
    ensures
        pow10(a) <= pow10(b),
    decreases b,
{
    lemma_pow10_pos(a);
    if a < b {
        lemma_pow10_mono(a, (b - 1) as nat);
        lemma_pow10_pos((b - 1) as nat);
    }
}

/// Floor division and remainder stay within the obvious bounds.
pub proof fn lemma_div_bounds(v: int, d: int)
    requires
        d > 0,
    ensures
        0 <= v % d < d,
        v == (v / d) * d + v % d,
        v >= 0 ==> 0 <= v / d <= v,
        v < 0 ==> v <= v / d < 0,
{
    vstd::arithmetic::div_mod::lemma_fundamental_div_mod(v, d);
    vstd::arithmetic::div_mod::lemma_mod_bound(v, d);
    assert(d * (v / d) == (v / d) * d) by (nonlinear_arith);
    if v >= 0 {
        vstd::arithmetic::div_mod::lemma_div_pos_is_pos(v, d);
        vstd::arithmetic::div_mod::lemma_div_is_ordered_by_denominator(v, 1, d);
    } else {
        assert((v / d) * d <= v);
        assert(v / d < 0) by {
            if v / d >= 0 {
                assert((v / d) * d >= 0) by (nonlinear_arith) requires v / d >= 0, d > 0;
            }
        }
        assert(v <= v / d) by (nonlinear_arith)
            requires (v / d) * d <= v, d >= 1, v / d < 0;
    }
}

/// A rounded quotient lies within one step of the floor quotient.
pub proof fn lemma_round_div_bounds(v: int, d: int, mode: RoundingStrategy)
    requires
        d > 0,
    ensures
        v / d <= round_div(v, d, mode) <= v / d + 1,
{
}

/// Truncating division: the remainder is smaller than the divisor and takes
/// the dividend's sign, and the quotient shrinks the dividend.
pub proof fn lemma_trunc_div(a: int, b: int)
    requires
        b >= 1,
    ensures
        ({
            let q = crate::amount::trunc_div(a, b);
            let r = a - q * b;
            &&& abs(r) < b
            &&& (a >= 0 ==> 0 <= r && r == a % b && q == a / b)
            &&& (a < 0 ==> r <= 0 && r == -((-a) % b) && q == -((-a) / b))
            &&& (a >= 0 ==> 0 <= q <= a)
            &&& (a < 0 ==> a <= q <= 0)
            &&& (b >= 2 ==> abs(q) <= abs(a) / 2)
        }),
{
    let q = crate::amount::trunc_div(a, b);
    if a >= 0 {
        lemma_div_bounds(a, b);
        assert(a - q * b == a % b);
        if b >= 2 {
            vstd::arithmetic::div_mod::lemma_div_is_ordered_by_denominator(a, 2, b);
        }
    } else {
        lemma_div_bounds(-a, b);
        assert(q * b == -(((-a) / b) * b)) by (nonlinear_arith)
            requires q == -((-a) / b);
        assert(a - q * b == -((-a) % b));
        if b >= 2 {
            vstd::arithmetic::div_mod::lemma_div_is_ordered_by_denominator(-a, 2, b);
        }
    }
}

/// A prefix of a ratio sequence sums to no more than the whole.
pub proof fn lemma_ratio_prefix_le(s: Seq<u64>, k: int)
    requires
        0 <= k <= s.len(),
    ensures
        0 <= ratio_sum(s.take(k)) <= ratio_sum(s),
    decreases s.len(),
{
    if s.len() > 0 {
        if k == s.len() {
            assert(s.take(k) =~= s);
            lemma_ratio_prefix_le(s.drop_last(), k - 1);
            assert(s.drop_last().take(k - 1) =~= s.drop_last());
        } else {
            assert(s.take(k) =~= s.drop_last().take(k));
            lemma_ratio_prefix_le(s.drop_last(), k);
        }
    }
}

/// Every element of a `u128` sequence is at most its sum.
pub proof fn lemma_u128_sum_le_each(s: Seq<u128>, i: int)
    requires
        0 <= i < s.len(),
    ensures
        s[i] <= u128_sum(s),
        u128_sum(s) >= 0,
    decreases s.len(),
{
    lemma_u128_sum_nonneg(s.drop_last());
    if i < s.len() - 1 {
        lemma_u128_sum_le_each(s.drop_last(), i);
    }
}

/// A `u128` sum is non-negative.
pub proof fn lemma_u128_sum_nonneg(s: Seq<u128>)
    ensures
        u128_sum(s) >= 0,
    decreases s.len(),
{
    if s.len() > 0 {
        lemma_u128_sum_nonneg(s.drop_last());
    }
}

/// Replacing one element changes the sum by the difference.
pub proof fn lemma_u128_sum_update(s: Seq<u128>, i: int, x: int)
    requires
        0 <= i < s.len(),
        0 <= x <= u128::MAX,
    ensures
        u128_sum(s.update(i, x as u128)) == u128_sum(s) - s[i] + x,
    decreases s.len(),
{
    if i < s.len() - 1 {
        assert(s.update(i, x as u128).drop_last() =~= s.drop_last().update(i, x as u128));
        lemma_u128_sum_update(s.drop_last(), i, x);
    } else {
        assert(s.update(i, x as u128).drop_last() =~= s.drop_last());
    }
}

/// The number of `true` entries is at most the length, and equal to it only
/// when every entry is `true`.
pub proof fn lemma_count_true_lt(s: Seq<bool>)
    ensures
        0 <= count_true(s) <= s.len(),
    decreases s.len(),
{
    if s.len() > 0 {
        lemma_count_true_lt(s.drop_last());
    }
}

/// When every entry is `true`, all of them are counted.
pub proof fn lemma_all_true_count(s: Seq<bool>)
    requires
        forall|k: int| 0 <= k < s.len() ==> #[trigger] s[k],
    ensures
        count_true(s) == s.len(),
    decreases s.len(),
{
    if s.len() > 0 {
        lemma_all_true_count(s.drop_last());
    }
}

/// Setting a `false` entry to `true` adds one to the count.
pub proof fn lemma_count_true_set(s: Seq<bool>, i: int)
    requires
        0 <= i < s.len(),
        !s[i],
    ensures
        count_true(s.update(i, true)) == count_true(s) + 1,
    decreases s.len(),
{
    if i < s.len() - 1 {
        assert(s.update(i, true).drop_last() =~= s.drop_last().update(i, true));
        lemma_count_true_set(s.drop_last(), i);
    } else {
        assert(s.update(i, true).drop_last() =~= s.drop_last());
    }
}

/// Stripping trailing zeros lowers the scale and divides the mantissa by the
/// matching power of ten exactly.
pub proof fn lemma_strip_zeros(m: int, s: nat)
    ensures
        strip_zeros(m, s).1 <= s,
        m == strip_zeros(m, s).0 * pow10((s - strip_zeros(m, s).1) as nat),
    decreases s,
{
    if s > 0 && m % 10 == 0 {
        lemma_strip_zeros(m / 10, (s - 1) as nat);
        let (m2, s2) = strip_zeros(m / 10, (s - 1) as nat);
        vstd::arithmetic::div_mod::lemma_fundamental_div_mod(m, 10);
        assert(pow10((s - s2) as nat) == 10 * pow10((s - 1 - s2) as nat));
        assert(m == 10 * (m2 * pow10((s - 1 - s2) as nat))) by (nonlinear_arith)
            requires m == 10 * (m / 10), m / 10 == m2 * pow10((s - 1 - s2) as nat);
        assert(10 * (m2 * pow10((s - 1 - s2) as nat)) == m2 * (10 * pow10((s - 1 - s2) as nat))) by (nonlinear_arith);
    }
}

/// Cross-multiplied comparison is transitive: `a ≤ b < c` or `a < b ≤ c`
/// gives `a < c`, and `a ≤ b ≤ c` gives `a ≤ c` (`x ≤ y` read as `!(y < x)`).
pub proof fn lemma_decimal_order_trans(a: Decimal, b: Decimal, c: Decimal)
    ensures
        (a.less_than(b) && !c.less_than(b)) ==> a.less_than(c),
        (!b.less_than(a) && b.less_than(c)) ==> a.less_than(c),
        (!b.less_than(a) && !c.less_than(b)) ==> !c.less_than(a),
{
    let pa = pow10(a.s());
    let pb = pow10(b.s());
    let pc = pow10(c.s());
    lemma_pow10_pos(a.s());
    lemma_pow10_pos(b.s());
    lemma_pow10_pos(c.s());
    let (am, bm, cm) = (a.m(), b.m(), c.m());
    assert((am * pb <= bm * pa && bm * pc <= cm * pb) ==> am * pc <= cm * pa) by (nonlinear_arith)
        requires pa > 0, pb > 0, pc > 0;
    assert((am * pb < bm * pa && bm * pc <= cm * pb) ==> am * pc < cm * pa) by (nonlinear_arith)
        requires pa > 0, pb > 0, pc > 0;
    assert((am * pb <= bm * pa && bm * pc < cm * pb) ==> am * pc < cm * pa) by (nonlinear_arith)
        requires pa > 0, pb > 0, pc > 0;
}

/// Two decimals are ordered one way or the other, or denote the same number.
pub proof fn lemma_decimal_total(a: Decimal, b: Decimal)
    ensures
        a.less_than(b) || b.less_than(a) || a.same_value(b),
        !(a.less_than(b) && b.less_than(a)),
        a.same_value(b) ==> !a.less_than(b) && !b.less_than(a) && b.same_value(a),
{
}

/// Denoting the same number is transitive.
pub proof fn lemma_same_value_trans(a: Decimal, b: Decimal, c: Decimal)
    requires
        a.same_value(b),
        b.same_value(c),
    ensures
        a.same_value(c),
{
    let pa = pow10(a.s());
    let pb = pow10(b.s());
    let pc = pow10(c.s());
    lemma_pow10_pos(a.s());
    lemma_pow10_pos(b.s());
    lemma_pow10_pos(c.s());
    let (am, bm, cm) = (a.m(), b.m(), c.m());
    assert(am * pc == cm * pa) by (nonlinear_arith)
        requires am * pb == bm * pa, bm * pc == cm * pb, pa > 0, pb > 0, pc > 0;
}

/// A number has one canonical form: two decimals with their trailing zeros
/// stripped denote the same number exactly when they are equal.
pub proof fn lemma_canonical_unique(a: Decimal, b: Decimal)
    requires
        strip_zeros(a.m(), a.s()) == (a.m(), a.s()),
        strip_zeros(b.m(), b.s()) == (b.m(), b.s()),
    ensures
        a.same_value(b) <==> (a.m() == b.m() && a.s() == b.s()),
{
    if a.same_value(b) {
        if a.s() < b.s() {
            lemma_stripped_not_multiple(b.m(), b.s());
            lemma_shift_multiple(a.m(), a.s(), b.m(), b.s());
        } else if b.s() < a.s() {
            lemma_stripped_not_multiple(a.m(), a.s());
            lemma_shift_multiple(b.m(), b.s(), a.m(), a.s());
        } else {
            lemma_pow10_pos(a.s());
            let p = pow10(a.s());
            assert(a.m() == b.m()) by (nonlinear_arith)
                requires a.m() * p == b.m() * p, p > 0;
        }
    }
}

/// A stripped mantissa at a positive scale is not a multiple of ten.
proof fn lemma_stripped_not_multiple(m: int, s: nat)
    requires
        strip_zeros(m, s) == (m, s),
        s > 0,
    ensures
        m % 10 != 0,
{
    if m % 10 == 0 {
        lemma_strip_zeros(m / 10, (s - 1) as nat);
    }
}

/// `x × 10^t == y × 10^s` with `s < t` makes `y` a multiple of ten.
proof fn lemma_shift_multiple(x: int, s: nat, y: int, t: nat)
    requires
        s < t,
        x * pow10(t) == y * pow10(s),
    ensures
        y % 10 == 0,
{
    lemma_pow10_add(s, (t - s) as nat);
    lemma_pow10_pos(s);
    let d = (t - s - 1) as nat;
    lemma_pow10_pos(d);
    assert(pow10((t - s) as nat) == 10 * pow10(d));
    let ps = pow10(s);
    let q = pow10(d);
    assert(y == x * 10 * q) by (nonlinear_arith)
        requires x * (ps * (10 * q)) == y * ps, ps > 0;
    assert((x * q * 10) % 10 == 0) by (nonlinear_arith);
    assert(x * 10 * q == x * q * 10) by (nonlinear_arith);
}

/// Stripping trailing zeros twice is stripping them once.
pub proof fn lemma_strip_idempotent(m: int, s: nat)
    ensures
        strip_zeros(strip_zeros(m, s).0, strip_zeros(m, s).1) == strip_zeros(m, s),
    decreases s,
{
    if s > 0 && m % 10 == 0 {
        lemma_strip_idempotent(m / 10, (s - 1) as nat);
    }
}

/// Bringing `m × 10^-s` to scale `u` and then to `t` is bringing it to `t`.
pub proof fn lemma_rescale_twice(m: int, s: nat, u: nat, t: nat)
    requires
        s <= u <= t,
    ensures
        rescaled(m, s, u) * pow10((t - u) as nat) == m * pow10((t - s) as nat),
{
    lemma_pow10_add((u - s) as nat, (t - u) as nat);
    assert((m * pow10((u - s) as nat)) * pow10((t - u) as nat) == m * (pow10((u - s) as nat) * pow10(
        (t - u) as nat,
    ))) by (nonlinear_arith);
}

/// Scaling by a positive factor keeps the sign and does not shrink the size.
pub proof fn lemma_scaled_bounds(x: int, k: int)
    requires
        k >= 1,
    ensures
        abs(x) <= abs(x * k),
        (x > 0) == (x * k > 0),
        (x < 0) == (x * k < 0),
{
    assert(abs(x) <= abs(x * k) && (x > 0) == (x * k > 0) && (x < 0) == (x * k < 0)) by (nonlinear_arith)
        requires k >= 1;
}

/// A decimal is positive exactly when its mantissa at any larger scale is.
pub proof fn lemma_at_scale_sign(d: Decimal, t: nat)
    requires
        d.s() <= t,
    ensures
        (d.m() > 0) == (at_scale(d, t) > 0),
        (d.m() < 0) == (at_scale(d, t) < 0),
{
    lemma_pow10_pos((t - d.s()) as nat);
    lemma_scaled_bounds(d.m(), pow10((t - d.s()) as nat));
}

/// Decimals compare as their mantissas at a common scale do.
pub proof fn lemma_less_than_at(a: Decimal, b: Decimal, t: nat)
    requires
        a.s() <= t,
        b.s() <= t,
    ensures
        a.less_than(b) <==> at_scale(a, t) < at_scale(b, t),
{
    let pa = pow10(a.s());
    let pb = pow10(b.s());
    let pt = pow10(t);
    lemma_pow10_pos(a.s());
    lemma_pow10_pos(b.s());
    lemma_pow10_pos(t);
    lemma_pow10_add((t - a.s()) as nat, a.s());
    lemma_pow10_add((t - b.s()) as nat, b.s());
    let x = at_scale(a, t);
    let y = at_scale(b, t);
    let ka = pow10((t - a.s()) as nat);
    let kb = pow10((t - b.s()) as nat);
    assert(ka * pa == pt);
    assert(kb * pb == pt);
    assert(x * (pa * pb) == (a.m() * pb) * pt) by (nonlinear_arith)
        requires x == a.m() * ka, ka * pa == pt;
    assert(y * (pa * pb) == (b.m() * pa) * pt) by (nonlinear_arith)
        requires y == b.m() * kb, kb * pb == pt;
    assert((x < y) <==> (a.m() * pb) * pt < (b.m() * pa) * pt) by (nonlinear_arith)
        requires x * (pa * pb) == (a.m() * pb) * pt, y * (pa * pb) == (b.m() * pa) * pt, pa > 0, pb > 0;
    assert(((a.m() * pb) * pt < (b.m() * pa) * pt) <==> (a.m() * pb < b.m() * pa)) by (nonlinear_arith)
        requires pt > 0;
}

/// What `rust_decimal`'s subtraction promises, read at a common scale `t`
/// large enough for both operands: when both operands and the difference fit
/// 96 bits there, the result is the exact difference, at a scale no larger.
pub proof fn lemma_difference_at(a: Decimal, b: Decimal, d: Decimal, t: nat)
    requires
        a.s() <= t,
        b.s() <= t,
        -MAX_MANTISSA <= at_scale(a, t) <= MAX_MANTISSA,
        -MAX_MANTISSA <= at_scale(b, t) <= MAX_MANTISSA,
        -MAX_MANTISSA <= at_scale(a, t) - at_scale(b, t) <= MAX_MANTISSA,
        difference_exact(a, b, d),
    ensures
        d.s() <= t,
        at_scale(d, t) == at_scale(a, t) - at_scale(b, t),
{
    lemma_pow10_pos((t - a.s()) as nat);
    lemma_pow10_pos((t - b.s()) as nat);
    if a.m() == 0 {
        assert(at_scale(a, t) == 0);
        assert(at_scale(d, t) == -at_scale(b, t)) by (nonlinear_arith)
            requires d.m() == -b.m(), d.s() == b.s();
    } else if b.m() == 0 {
        assert(at_scale(b, t) == 0);
    } else {
        let u = max_scale(a.s(), b.s());
        let k = pow10((t - u) as nat);
        lemma_pow10_pos((t - u) as nat);
        let ra = rescaled(a.m(), a.s(), u);
        let rb = rescaled(b.m(), b.s(), u);
        lemma_rescale_twice(a.m(), a.s(), u, t);
        lemma_rescale_twice(b.m(), b.s(), u, t);
        lemma_scaled_bounds(ra, k);
        lemma_scaled_bounds(rb, k);
        let x = ra - rb;
        assert(x * k == ra * k - rb * k) by (nonlinear_arith)
            requires x == ra - rb;
        lemma_scaled_bounds(x, k);
        assert(aligned_fits(a.m(), a.s(), b.m(), b.s(), x));
        assert(at_scale(d, t) == x * k);
    }
}

} // verus!
