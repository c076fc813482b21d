//! Proportional and equal splits across recipients, and the largest-remainder
//! split of a decimal quantity.
use vstd::prelude::*;

use crate::advance::Prepayment;
use crate::amount::{count_true, raw_sum, rounded_raw, Amount, RoundingStrategy};
use crate::advance::sums_fit;
use crate::arith::{abs, lemma_count_true_lt, lemma_count_true_set, lemma_decimal_order_trans};
use crate::decimal::{
    decimal_difference, decimal_product, decimal_quotient, decimal_sum, pow10, round_dp_spec, Decimal, MAX_SCALE,
};
use crate::arith::fits_i64;
use crate::document::{clone_meta, nets, sum_nets, BillingDocument, DocumentMeta, DocumentParts};
use crate::error::BillingError;
use crate::line_item::{clone_text, LineItem, Sign};
use crate::text::{concat, join3, nat_text, owned, usize_text};
use vstd::string::StringExecFns;
use crate::vat::TaxBreakdownEntry;

verus! {

/// The running sum of `s` as `rust_decimal` forms it with `checked_add`,
/// starting from zero: `None` once a step overflows.
pub open spec fn decimal_total(s: Seq<Decimal>) -> Option<(int, nat)>
    decreases s.len(),
{
    if s.len() == 0 {
        Some((0int, 0nat))
    } else {
        match decimal_total(s.drop_last()) {
            None => None,
            Some((m, k)) => decimal_sum(m, k, s.last().m(), s.last().s()),
        }
    }
}

/// Mantissa and scale of a decimal.
pub open spec fn pair(d: Decimal) -> (int, nat) {
    (d.m(), d.s())
}

/// `x ≤ y` as numbers.
pub open spec fn dec_le(x: Decimal, y: Decimal) -> bool {
    !y.less_than(x)
}

/// No fraction is negative.
pub open spec fn all_non_negative(fractions: Seq<Decimal>) -> bool {
    forall|i: int| 0 <= i < fractions.len() ==> #[trigger] fractions[i].m() >= 0
}

/// The argument checks of [`proportional_split`]: at least one fraction, a
/// scale `decimal` can hold, a non-negative total and non-negative fractions.
pub open spec fn split_inputs_ok(total: Decimal, fractions: Seq<Decimal>, scale: u32) -> bool {
    &&& fractions.len() > 0
    &&& scale <= MAX_SCALE
    &&& total.m() >= 0
    &&& all_non_negative(fractions)
}

/// The share-sum test of [`proportional_split`]: the fractions sum to one
/// within `1e-9`, and the drift from one, applied to `|total|`, is worth less
/// than one unit of `10^-scale` per fraction.
pub open spec fn split_shares_ok(total: Decimal, fractions: Seq<Decimal>, scale: u32) -> bool {
    match decimal_total(fractions) {
        None => false,
        Some((sm, ss)) => match decimal_difference(sm, ss, 1, 0) {
            None => false,
            Some((dm, ds)) => {
                let drift = abs(dm);
                &&& drift * pow10(9) <= pow10(ds)
                &&& match decimal_product(drift, ds, abs(total.m()), total.s()) {
                    None => false,
                    Some((vm, vs)) => match decimal_product(1, scale as nat, fractions.len() as int, 0) {
                        None => false,
                        Some((am, a_s)) => vm * pow10(a_s) < am * pow10(vs),
                    },
                }
            },
        },
    }
}

/// `total` rounded half away from zero to `scale` places.
pub open spec fn split_target(total: Decimal, scale: u32) -> (int, nat) {
    round_dp_spec(total.m(), total.s(), scale as nat, RoundingStrategy::MidpointAwayFromZero)
}

/// The floored share of fraction `f`: `target × f` floored to `scale` places.
pub open spec fn floored_share(target: (int, nat), f: Decimal, scale: u32) -> Option<(int, nat)> {
    match decimal_product(target.0, target.1, f.m(), f.s()) {
        None => None,
        Some((pm, ps)) => Some(round_dp_spec(pm, ps, scale as nat, RoundingStrategy::Floor)),
    }
}

/// What flooring discarded from the share of `f`.
pub open spec fn share_remainder(target: (int, nat), f: Decimal, scale: u32) -> Option<(int, nat)> {
    match decimal_product(target.0, target.1, f.m(), f.s()) {
        None => None,
        Some((pm, ps)) => {
            let fl = round_dp_spec(pm, ps, scale as nat, RoundingStrategy::Floor);
            decimal_difference(pm, ps, fl.0, fl.1)
        },
    }
}

/// The floored shares of the fractions of `target`.
pub open spec fn split_floors(target: (int, nat), fractions: Seq<Decimal>, scale: u32) -> Seq<Decimal> {
    Seq::new(
        fractions.len(),
        |i: int|
            {
                let (m, k) = floored_share(target, fractions[i], scale)->0;
                Decimal::value_of(m, k)
            },
    )
}

/// The parts when the entries marked in `chosen` get one unit of
/// `10^-scale` on top of their floors.
pub open spec fn split_parts(floors: Seq<Decimal>, chosen: Seq<bool>, scale: u32) -> Seq<Decimal> {
    Seq::new(
        floors.len(),
        |i: int|
            if chosen[i] {
                let (m, k) = decimal_sum(floors[i].m(), floors[i].s(), 1, scale as nat)->0;
                Decimal::value_of(m, k)
            } else {
                floors[i]
            },
    )
}

/// How many units of `10^-scale` the floors fall short of `target`: their
/// difference rounded to `scale` places and divided by the unit, as
/// `rust_decimal` forms them; `None` where a step cannot be formed, the
/// floors over-allocate, or the count exceeds the number of floors.
pub open spec fn split_deficit(target: (int, nat), floors: Seq<Decimal>, scale: u32) -> Option<int> {
    match decimal_total(floors) {
        None => None,
        Some((fm, fs)) => match decimal_difference(target.0, target.1, fm, fs) {
            None => None,
            Some((dm, ds)) => if dm < 0 {
                None
            } else if dm == 0 {
                Some(0)
            } else {
                let (rm, rs) = round_dp_spec(dm, ds, scale as nat, RoundingStrategy::MidpointAwayFromZero);
                match decimal_quotient(rm, rs, 1, scale as nat) {
                    None => None,
                    Some((qm, qs)) => {
                        let u = round_dp_spec(qm, qs, 0, RoundingStrategy::MidpointAwayFromZero).0;
                        if 0 <= u <= floors.len() {
                            Some(u)
                        } else {
                            None
                        }
                    },
                }
            },
        },
    }
}

/// Every intermediate result of [`proportional_split`] after the share
/// checks can be formed: each share's floor and remainder, the deficit in
/// units, each floor plus one unit; and however the deficit's units are
/// handed out, the parts sum to the rounded total.
pub open spec fn split_computable(total: Decimal, fractions: Seq<Decimal>, scale: u32) -> bool {
    let target = split_target(total, scale);
    let floors = split_floors(target, fractions, scale);
    &&& forall|i: int| 0 <= i < fractions.len() ==> (#[trigger] floored_share(target, fractions[i], scale)) is Some
        && share_remainder(target, fractions[i], scale) is Some
    &&& forall|i: int| 0 <= i < fractions.len() ==> decimal_sum((#[trigger] floors[i]).m(), floors[i].s(), 1, scale as nat) is Some
    &&& match split_deficit(target, floors, scale) {
        None => false,
        Some(count) => forall|chosen: Seq<bool>|
            chosen.len() == fractions.len() && #[trigger] count_true(chosen) == count ==> (decimal_total(
                split_parts(floors, chosen, scale),
            ) matches Some((cm, cs)) && cm * pow10(target.1) == target.0 * pow10(cs)),
    }
}

/// `chosen` marks entries of `rem` by the largest-remainder rule: every chosen
/// entry is at least every unchosen one, and on a tie the earlier index wins.
pub open spec fn largest_first(rem: Seq<Decimal>, chosen: Seq<bool>) -> bool {
    forall|a: int, b: int|
        0 <= a < rem.len() && 0 <= b < rem.len() && #[trigger] chosen[a] && !#[trigger] chosen[b]
            ==> dec_le(rem[b], rem[a]) && (rem[b].less_than(rem[a]) || a < b)
}

/// Mark the `count` entries of `rem` with the largest values, earlier index
/// first among equals.
fn select_largest(rem: &Vec<Decimal>, count: usize) -> (chosen: Vec<bool>)
    requires
        count <= rem.len(),
    ensures
        chosen.len() == rem.len(),
        count_true(chosen@) == count,
        largest_first(rem@, chosen@),
{
    let n = rem.len();
    let mut chosen: Vec<bool> = Vec::new();
    let mut i: usize = 0;
    while i < n
        invariant
            i <= n,
            chosen.len() == i,
            forall|k: int| 0 <= k < i ==> !#[trigger] chosen[k],
            count_true(chosen@) == 0,
        decreases n - i,
    {
        proof {
            assert(chosen@.push(false).drop_last() =~= chosen@);
        }
        chosen.push(false);
        i = i + 1;
    }
    let mut c: usize = 0;
    while c < count
        invariant
            c <= count <= n,
            n == rem.len(),
            chosen.len() == n,
            count_true(chosen@) == c,
            largest_first(rem@, chosen@),
        decreases count - c,
    {
        let mut found = false;
        let mut best: usize = 0;
        let mut j: usize = 0;
        while j < n
            invariant
                j <= n,
                n == rem.len(),
                chosen.len() == n,
                found ==> best < j && !chosen[best as int],
                found ==> forall|t: int|
                    0 <= t < j && !#[trigger] chosen[t] ==> dec_le(rem[t], rem[best as int]) && (
                    rem[t].less_than(rem[best as int]) || best <= t),
                !found ==> forall|t: int| 0 <= t < j ==> #[trigger] chosen[t],
            decreases n - j,
        {
            if !chosen[j] && (!found || rem[best].lt(&rem[j])) {
                proof {
                    if found {
                        assert forall|t: int|
                            0 <= t < j && !#[trigger] chosen[t] implies dec_le(rem[t], rem[j as int])
                            && rem[t].less_than(rem[j as int]) by {
                            lemma_decimal_order_trans(rem[t], rem[best as int], rem[j as int]);
                        }
                    }
                }
                best = j;
                found = true;
            }
            j = j + 1;
        }
        if !found {
            proof {
                crate::arith::lemma_all_true_count(chosen@);
            }
            return chosen;
        }
        proof {
            lemma_count_true_set(chosen@, best as int);
            let old = chosen@;
            let new = old.update(best as int, true);
            assert forall|a: int, b: int|
                0 <= a < rem.len() && 0 <= b < rem.len() && #[trigger] new[a] && !#[trigger] new[b]
                    implies dec_le(rem[b], rem[a]) && (rem[b].less_than(rem[a]) || a < b) by {
                if a != best as int {
                    assert(old[a] && !old[b]);
                } else {
                    assert(!old[b]);
                }
            }
        }
        chosen.set(best, true);
        c = c + 1;
    }
    chosen
}

/// Split `total` into parts proportional to `fractions`, rounded to `scale`
/// places, by the largest-remainder method.
///
/// - `Err(InvalidInput)` exactly when [`split_inputs_ok`] fails.
/// - Otherwise `Err(InvalidAllocationShares)` exactly when [`split_shares_ok`]
///   fails.
/// - `Ok(parts)`: one part per fraction; each part is its floored share, or
///   that share plus one unit `10^-scale` where the part is among the largest
///   remainders ([`largest_first`]); and the parts sum (as `rust_decimal` adds
///   them) to exactly `total` rounded to `scale` places.
/// - Any other failure is `InvalidInput`: an intermediate product, sum or
///   difference that `rust_decimal` cannot form, or fractions that
///   over-allocate.
pub fn proportional_split(total_in: Decimal, fractions: &[Decimal], scale: u32) -> (r: Result<
    Vec<Decimal>,
    BillingError,
>)
    ensures
        !split_inputs_ok(total_in, fractions@, scale) ==> (r matches Err(e) && e is InvalidInput),
        split_inputs_ok(total_in, fractions@, scale) ==> ((r matches Err(e) && e is InvalidAllocationShares)
            <==> !split_shares_ok(total_in, fractions@, scale)),
        (split_inputs_ok(total_in, fractions@, scale) && split_shares_ok(total_in, fractions@, scale) && split_computable(
            total_in,
            fractions@,
            scale,
        )) ==> r is Ok,
        r matches Err(e) ==> (e is InvalidInput || e is InvalidAllocationShares),
        r matches Ok(parts) ==> {
            let target = split_target(total_in, scale);
            &&& split_inputs_ok(total_in, fractions@, scale)
            &&& split_shares_ok(total_in, fractions@, scale)
            &&& parts.len() == fractions.len()
            &&& exists|chosen: Seq<bool>|
                {
                    &&& chosen.len() == fractions.len()
                    &&& forall|i: int|
                        0 <= i < fractions.len() ==> (#[trigger] share_remainder(target, fractions[i], scale)) is Some
                    &&& largest_first(
                        Seq::new(fractions.len() as nat, |i: int| {
                            let (m, k) = share_remainder(target, fractions[i], scale)->0;
                            Decimal::value_of(m, k)
                        }),
                        chosen,
                    )
                    &&& forall|i: int|
                        0 <= i < fractions.len() ==> match #[trigger] floored_share(target, fractions[i], scale) {
                            None => false,
                            Some(fl) => if chosen[i] {
                                Some(pair(parts[i])) == decimal_sum(fl.0, fl.1, 1, scale as nat)
                            } else {
                                pair(parts[i]) == fl
                            },
                        }
                }
            &&& decimal_total(parts@) matches Some((cm, cs)) && cm * pow10(target.1) == target.0 * pow10(cs)
        },
{
    let overflow = "proportional_split: intermediate arithmetic overflowed";
    let total = total_in;
    let n = fractions.len();
    if n == 0 {
        return Err(BillingError::invalid_input("fractions must not be empty"));
    }
    if scale > MAX_SCALE {
        return Err(BillingError::InvalidInput {
            reason: join3("proportional_split: scale must be <= 28, got ", usize_text(scale as usize).as_str(), ""),
        });
    }
    if total.is_negative() {
        return Err(BillingError::invalid_input("proportional_split: total must be non-negative"));
    }
    let mut i: usize = 0;
    while i < n
        invariant
            i <= n,
            n == fractions.len(),
            forall|k: int| 0 <= k < i ==> #[trigger] fractions[k].m() >= 0,
        decreases n - i,
    {
        if fractions[i].is_negative() {
            return Err(BillingError::invalid_input("proportional_split: each fraction must be non-negative"));
        }
        i = i + 1;
    }
    // The shares must sum to one.
    let mut sum = Decimal::zero();
    let mut i: usize = 0;
    while i < n
        invariant
            i <= n,
            n == fractions.len(),
            decimal_total(fractions@.take(i as int)) == Some(pair(sum)),
            split_inputs_ok(total_in, fractions@, scale),
        decreases n - i,
    {
        assert(fractions@.take(i as int + 1).drop_last() =~= fractions@.take(i as int));
        match sum.checked_add(&fractions[i]) {
            Some(s) => {
                sum = s;
            },
            None => {
                proof {
                    lemma_total_none_extends(fractions@, i as int + 1);
                }
                return Err(BillingError::InvalidAllocationShares { sum: owned("overflow") });
            },
        }
        i = i + 1;
    }
    assert(fractions@.take(n as int) =~= fractions@);
    let drift = match sum.checked_sub(&Decimal::one()) {
        Some(d) => d.abs(),
        None => {
            return Err(BillingError::InvalidAllocationShares { sum: sum.to_text() });
        },
    };
    let unit = Decimal::new(1, scale);
    let drift_value = match drift.checked_mul(&total.abs()) {
        Some(v) => v,
        None => {
            return Err(BillingError::InvalidAllocationShares { sum: sum.to_text() });
        },
    };
    let absorbable = match unit.checked_mul(&Decimal::from_usize(n)) {
        Some(a) => a,
        None => {
            return Err(BillingError::InvalidAllocationShares { sum: sum.to_text() });
        },
    };
    if Decimal::new(1, 9).lt(&drift) || !drift_value.lt(&absorbable) {
        return Err(BillingError::InvalidAllocationShares { sum: sum.to_text() });
    }
    assert(split_shares_ok(total_in, fractions@, scale));
    let ghost good = split_computable(total_in, fractions@, scale);
    let ghost target = split_target(total, scale);
    let total = total.round_dp_with_strategy(scale, RoundingStrategy::MidpointAwayFromZero);
    assert(pair(total) == target);
    // Floor each share, and keep what flooring discarded.
    let mut parts: Vec<Decimal> = Vec::new();
    let mut remainders: Vec<Decimal> = Vec::new();
    let mut i: usize = 0;
    while i < n
        invariant
            i <= n,
            n == fractions.len(),
            pair(total) == target,
            scale <= MAX_SCALE,
            split_inputs_ok(total_in, fractions@, scale),
            split_shares_ok(total_in, fractions@, scale),
            parts.len() == i,
            remainders.len() == i,
            forall|k: int|
                0 <= k < i ==> floored_share(target, fractions[k], scale) == Some(pair(#[trigger] parts[k])),
            forall|k: int|
                0 <= k < i ==> share_remainder(target, fractions[k], scale) == Some(
                    pair(#[trigger] remainders[k]),
                ),
            good == split_computable(total_in, fractions@, scale),
            target == split_target(total_in, scale),
        decreases n - i,
    {
        let p = match total.checked_mul(&fractions[i]) {
            Some(p) => p,
            None => {
                assert(!good) by {
                    assert(floored_share(target, fractions[i as int], scale) is None);
                }
                return Err(BillingError::invalid_input(overflow));
            },
        };
        let fl = p.round_dp_with_strategy(scale, RoundingStrategy::Floor);
        let rem = match p.checked_sub(&fl) {
            Some(x) => x,
            None => {
                assert(!good) by {
                    assert(share_remainder(target, fractions[i as int], scale) is None);
                    assert(floored_share(target, fractions[i as int], scale) is Some);
                }
                return Err(BillingError::invalid_input(overflow));
            },
        };
        parts.push(fl);
        remainders.push(rem);
        i = i + 1;
    }
    // How many units flooring left undistributed.
    proof {
        assert forall|k: int| 0 <= k < n implies #[trigger] parts@[k] == split_floors(target, fractions@, scale)[k] by {
            Decimal::lemma_value_of(parts@[k]);
        }
        assert(parts@ =~= split_floors(target, fractions@, scale));
    }
    let mut floored_sum = Decimal::zero();
    let mut i: usize = 0;
    while i < n
        invariant
            i <= n,
            n == parts.len(),
            split_inputs_ok(total_in, fractions@, scale),
            split_shares_ok(total_in, fractions@, scale),
            decimal_total(parts@.take(i as int)) == Some(pair(floored_sum)),
            good == split_computable(total_in, fractions@, scale),
            target == split_target(total_in, scale),
            parts@ == split_floors(target, fractions@, scale),
        decreases n - i,
    {
        assert(parts@.take(i as int + 1).drop_last() =~= parts@.take(i as int));
        match floored_sum.checked_add(&parts[i]) {
            Some(s) => {
                floored_sum = s;
            },
            None => {
                proof {
                    lemma_total_none_extends(parts@, i as int + 1);
                    assert(split_deficit(target, parts@, scale) is None);
                }
                return Err(BillingError::invalid_input(overflow));
            },
        }
        i = i + 1;
    }
    assert(parts@.take(n as int) =~= parts@);
    let ghost floors = parts@;
    assert(decimal_total(floors) == Some(pair(floored_sum)));
    let deficit_raw = match total.checked_sub(&floored_sum) {
        Some(d) => d,
        None => {
            assert(split_deficit(target, floors, scale) is None);
            return Err(BillingError::invalid_input(overflow));
        },
    };
    if deficit_raw.is_negative() {
        assert(split_deficit(target, floors, scale) is None);
        let mut reason = join3("proportional_split: fractions sum to ", sum.to_text().as_str(), ", over-allocating ");
        reason.append(total.to_text().as_str());
        reason.append(" at scale ");
        reason.append(usize_text(scale as usize).as_str());
        return Err(BillingError::InvalidInput { reason });
    }
    let mut count: usize = 0;
    if !deficit_raw.is_zero() {
        let deficit = deficit_raw.round_dp_with_strategy(scale, RoundingStrategy::MidpointAwayFromZero);
        let units = match deficit.checked_div(&unit) {
            Some(q) => q.round_dp_with_strategy(0, RoundingStrategy::MidpointAwayFromZero),
            None => {
                assert(split_deficit(target, floors, scale) is None);
                return Err(BillingError::invalid_input(overflow));
            },
        };
        let um = units.mantissa();
        if um < 0 || um > usize::MAX as i128 {
            assert(split_deficit(target, floors, scale) is None);
            return Err(BillingError::invalid_input("proportional_split: deficit unit count overflows usize"));
        }
        count = um as usize;
        if count > n {
            assert(split_deficit(target, floors, scale) is None);
            return Err(BillingError::invalid_input("proportional_split: deficit exceeds the fractions available to absorb it"));
        }
    }
    assert(good ==> split_deficit(target, floors, scale) == Some(count as int));
    // Hand one unit each to the largest remainders.
    let chosen = select_largest(&remainders, count);
    let mut i: usize = 0;
    while i < n
        invariant
            i <= n,
            n == parts.len(),
            n == chosen.len(),
            floors.len() == n,
            scale <= MAX_SCALE,
            unit.m() == 1,
            unit.s() == scale,
            split_inputs_ok(total_in, fractions@, scale),
            split_shares_ok(total_in, fractions@, scale),
            good == split_computable(total_in, fractions@, scale),
            target == split_target(total_in, scale),
            floors == split_floors(target, fractions@, scale),
            forall|k: int| i <= k < n ==> #[trigger] parts[k] == floors[k],
            forall|k: int|
                0 <= k < i ==> if chosen[k] {
                    Some(pair(#[trigger] parts[k])) == decimal_sum(floors[k].m(), floors[k].s(), 1, scale as nat)
                } else {
                    parts[k] == floors[k]
                },
        decreases n - i,
    {
        if chosen[i] {
            match parts[i].checked_add(&unit) {
                Some(x) => {
                    assert(parts[i as int] == floors[i as int]);
                    parts.set(i, x);
                    assert(parts[i as int] == x);
                },
                None => {
                    assert(!good) by {
                        assert(parts[i as int] == split_floors(target, fractions@, scale)[i as int]);
                    }
                    return Err(BillingError::invalid_input(overflow));
                },
            }
        }
        i = i + 1;
    }
    proof {
        assert forall|k: int| 0 <= k < n implies #[trigger] parts@[k] == split_parts(floors, chosen@, scale)[k] by {
            if chosen@[k] {
                Decimal::lemma_value_of(parts@[k]);
            }
        }
        assert(parts@ =~= split_parts(floors, chosen@, scale));
        if good {
            assert(count_true(chosen@) == count);
        }
    }
    let ghost full = parts@;
    // The parts must add up to the rounded total.
    let mut check = Decimal::zero();
    let mut i: usize = 0;
    while i < n
        invariant
            i <= n,
            n == parts.len(),
            decimal_total(parts@.take(i as int)) == Some(pair(check)),
            split_inputs_ok(total_in, fractions@, scale),
            split_shares_ok(total_in, fractions@, scale),
            full == parts@,
            good == split_computable(total_in, fractions@, scale),
            good ==> decimal_total(full) is Some,
        decreases n - i,
    {
        assert(parts@.take(i as int + 1).drop_last() =~= parts@.take(i as int));
        match check.checked_add(&parts[i]) {
            Some(s) => {
                check = s;
            },
            None => {
                proof {
                    lemma_total_none_extends(parts@, i as int + 1);
                }
                return Err(BillingError::invalid_input(overflow));
            },
        }
        i = i + 1;
    }
    assert(parts@.take(n as int) =~= parts@);
    if !check.value_eq(&total) {
        assert(!good);
        let mut reason = join3(
            "proportional_split post-condition failed: parts sum to ",
            check.to_text().as_str(),
            ", expected ",
        );
        reason.append(total.to_text().as_str());
        return Err(BillingError::InvalidInput { reason });
    }
    proof {
        let rem_seq = Seq::new(
            fractions.len() as nat,
            |i: int|
                {
                    let (m, k) = share_remainder(target, fractions[i], scale)->0;
                    Decimal::value_of(m, k)
                },
        );
        assert forall|k: int| 0 <= k < n implies rem_seq[k] == #[trigger] remainders@[k] by {
            Decimal::lemma_value_of(remainders@[k]);
        }
        assert(rem_seq =~= remainders@);
        assert forall|k: int|
            0 <= k < fractions.len() implies match #[trigger] floored_share(target, fractions[k], scale) {
                None => false,
                Some(fl) => if chosen@[k] {
                    Some(pair(parts@[k])) == decimal_sum(fl.0, fl.1, 1, scale as nat)
                } else {
                    pair(parts@[k]) == fl
                },
            } by {
            assert(floored_share(target, fractions[k], scale) == Some(pair(floors[k])));
        }
        assert forall|k: int| 0 <= k < fractions.len() implies (#[trigger] share_remainder(
            target,
            fractions[k],
            scale,
        )) is Some by {
            assert(share_remainder(target, fractions[k], scale) == Some(pair(remainders@[k])));
        }
    }
    Ok(parts)
}

/// Once a prefix sum overflows, every longer prefix does too.
pub(crate) proof fn lemma_total_none_extends(s: Seq<Decimal>, k: int)
    requires
        0 <= k <= s.len(),
        decimal_total(s.take(k)) is None,
    ensures
        decimal_total(s) is None,
    decreases s.len() - k,
{
    if k < s.len() {
        assert(s.take(k + 1).drop_last() =~= s.take(k));
        lemma_total_none_extends(s, k + 1);
    } else {
        assert(s.take(k) =~= s);
    }
}

/// The shares sum, as `rust_decimal` adds them, to one within `1e-9`.
pub open spec fn shares_sum_to_one(shares: Seq<Decimal>) -> bool {
    match decimal_total(shares) {
        None => false,
        Some((sm, ss)) => match decimal_difference(sm, ss, 1, 0) {
            None => false,
            Some((dm, ds)) => abs(dm) * pow10(9) <= pow10(ds),
        },
    }
}

/// Proportional allocation: recipient `i` receives share `i`.
#[derive(Debug, Clone)]
pub struct ProportionalAllocation {
    shares: Vec<Decimal>,
}

impl View for ProportionalAllocation {
    type V = Seq<Decimal>;

    closed spec fn view(&self) -> Seq<Decimal> {
        self.shares@
    }
}

impl ProportionalAllocation {
    /// Validate the shares: `Err(InvalidInput)` when there are none or one is
    /// negative; otherwise `Err(InvalidAllocationShares)` exactly when they do
    /// not sum to one within `1e-9` ([`shares_sum_to_one`]).
    pub fn new(shares: Vec<Decimal>) -> (r: Result<ProportionalAllocation, BillingError>)
        ensures
            (shares.len() == 0 || !all_non_negative(shares@)) ==> (r matches Err(e) && e is InvalidInput),
            (shares.len() > 0 && all_non_negative(shares@)) ==> match r {
                Ok(a) => shares_sum_to_one(shares@) && a@ == shares@,
                Err(e) => !shares_sum_to_one(shares@) && e is InvalidAllocationShares,
            },
    {
        let n = shares.len();
        if n == 0 {
            return Err(BillingError::invalid_input("ProportionalAllocation requires at least one share"));
        }
        let mut i: usize = 0;
        while i < n
            invariant
                i <= n,
                n == shares.len(),
                forall|k: int| 0 <= k < i ==> #[trigger] shares[k].m() >= 0,
            decreases n - i,
        {
            if shares[i].is_negative() {
                return Err(BillingError::InvalidInput {
                    reason: join3("ProportionalAllocation shares must be non-negative, got ", shares[i].to_text().as_str(), ""),
                });
            }
            i = i + 1;
        }
        let mut sum = Decimal::zero();
        let mut i: usize = 0;
        while i < n
            invariant
                i <= n,
                n == shares.len(),
                n > 0,
                all_non_negative(shares@),
                decimal_total(shares@.take(i as int)) == Some(pair(sum)),
            decreases n - i,
        {
            assert(shares@.take(i as int + 1).drop_last() =~= shares@.take(i as int));
            match sum.checked_add(&shares[i]) {
                Some(s) => {
                    sum = s;
                },
                None => {
                    proof {
                        lemma_total_none_extends(shares@, i as int + 1);
                    }
                    return Err(BillingError::InvalidAllocationShares { sum: owned("overflow") });
                },
            }
            i = i + 1;
        }
        assert(shares@.take(n as int) =~= shares@);
        let within = match sum.checked_sub(&Decimal::one()) {
            Some(d) => !Decimal::new(1, 9).lt(&d.abs()),
            None => false,
        };
        if !within {
            return Err(BillingError::InvalidAllocationShares { sum: sum.to_text() });
        }
        Ok(ProportionalAllocation { shares })
    }

    /// The fractional shares.
    pub fn shares(&self) -> (r: &[Decimal])
        ensures
            r@ == self@,
    {
        self.shares.as_slice()
    }
}

/// Equal allocation: `n` recipients, each receiving `1/n`.
#[derive(Debug, Clone)]
pub struct EqualAllocation {
    n: usize,
}

impl EqualAllocation {
    /// The number of recipients, as a value.
    pub closed spec fn parts_spec(&self) -> nat {
        self.n as nat
    }

    /// Split into `n` equal parts: `Err(InvalidInput)` exactly when `n == 0`.
    pub fn new(n: usize) -> (r: Result<EqualAllocation, BillingError>)
        ensures
            r is Ok <==> n > 0,
            r matches Ok(a) ==> a.parts_spec() == n,
            r matches Err(e) ==> e is InvalidInput,
    {
        if n == 0 {
            return Err(BillingError::invalid_input("EqualAllocation requires n > 0"));
        }
        Ok(EqualAllocation { n })
    }

    /// The number of equal recipients.
    pub fn n(&self) -> (r: usize)
        ensures
            r == self.parts_spec(),
    {
        self.n
    }
}

/// `a × share` rounded half away from zero to five places, as
/// [`Amount::checked_mul_qty`] forms it; `None` where that fails.
pub open spec fn share_of(a: int, share: Decimal) -> Option<int> {
    match decimal_product(a, 5, share.m(), share.s()) {
        None => None,
        Some((pm, ps)) => {
            let x = rounded_raw(pm, ps, 5, RoundingStrategy::MidpointAwayFromZero);
            if fits_i64(x) {
                Some(x)
            } else {
                None
            }
        },
    }
}

fn mul_share(a: Amount<5>, share: Decimal) -> (r: Result<Amount<5>, BillingError>)
    ensures
        r is Ok <==> share_of(a@ as int, share) is Some,
        r matches Ok(x) ==> share_of(a@ as int, share) == Some(x@ as int),
        r matches Err(e) ==> e is MonetaryOverflow,
{
    a.checked_mul_qty(share)
}

/// A document's total number `k`: net (0), tax (1), gross (2), prepaid (3)
/// or rounding (4).
pub open spec fn doc_field(d: BillingDocument, k: int) -> int {
    if k == 0 {
        d.net_total_spec()@ as int
    } else if k == 1 {
        d.tax_total_spec()@ as int
    } else if k == 2 {
        d.gross_total_spec()@ as int
    } else if k == 3 {
        d.prepaid_spec()@ as int
    } else {
        d.rounding_spec()@ as int
    }
}

/// Total number `k` summed over documents.
pub open spec fn doc_sum(docs: Seq<BillingDocument>, k: int) -> int
    decreases docs.len(),
{
    if docs.len() == 0 {
        0
    } else {
        doc_sum(docs.drop_last(), k) + doc_field(docs.last(), k)
    }
}

/// The base (`base`) or the tax of breakdown entry `e` of a document.
pub open spec fn entry_field(d: BillingDocument, e: int, base: bool) -> int {
    if base {
        d.breakdown_spec()[e].taxable_base@ as int
    } else {
        d.breakdown_spec()[e].tax_amount@ as int
    }
}

/// The base or the tax of breakdown entry `e`, summed over documents.
pub open spec fn entry_sum(docs: Seq<BillingDocument>, e: int, base: bool) -> int
    decreases docs.len(),
{
    if docs.len() == 0 {
        0
    } else {
        entry_sum(docs.drop_last(), e, base) + entry_field(docs.last(), e, base)
    }
}

/// What the first `k` recipients take of `v`: the sum of their shares as
/// [`share_of`] forms them; `None` where one cannot be formed.
pub open spec fn shares_taken(v: int, shares: Seq<Decimal>, k: int) -> Option<int>
    decreases k,
{
    if k <= 0 {
        Some(0)
    } else {
        match (shares_taken(v, shares, k - 1), share_of(v, shares[k - 1])) {
            (Some(t), Some(b)) => Some(t + b),
            _ => None,
        }
    }
}

/// Recipient `i`'s amount of `v`: its share, or for the last recipient what
/// the others leave.
pub open spec fn recipient_amount(v: int, shares: Seq<Decimal>, i: int) -> Option<int> {
    if i < shares.len() - 1 {
        share_of(v, shares[i])
    } else {
        match shares_taken(v, shares, i) {
            Some(t) => Some(v - t),
            None => None,
        }
    }
}

/// Every recipient but the last can take its share of `v`, and what is left
/// after each fits `i64`.
pub open spec fn remainders_fit(v: int, shares: Seq<Decimal>) -> bool {
    forall|k: int| 0 < k < shares.len() ==> (#[trigger] shares_taken(v, shares, k) matches Some(t) && fits_i64(v - t))
}

/// A recipient's discounts, scaled by `share`, the last corrected so that
/// positions `net` and discounts together sum to `target`.
pub open spec fn corrected_discounts(net: Seq<LineItem>, disc: Seq<LineItem>, share: Decimal, target: int) -> Seq<Amount<5>> {
    let sd = scaled_amounts(disc, share);
    if sd.len() == 0 {
        sd
    } else {
        sd.update(
            sd.len() - 1,
            Amount::<5>::from_raw_spec(target - raw_sum(scaled_amounts(net, share)) - raw_sum(sd.drop_last())),
        )
    }
}

/// Recipient `i`'s document can be formed: its totals, its gross, its
/// positions scaled and corrected to its totals, and its discount total.
pub open spec fn recipient_arith_ok(doc: BillingDocument, shares: Seq<Decimal>, i: int) -> bool {
    let s = shares[i];
    match (recipient_amount(doc_field(doc, 0), shares, i), recipient_amount(doc_field(doc, 1), shares, i)) {
        (Some(net), Some(tax)) => {
            &&& recipient_amount(doc_field(doc, 3), shares, i) is Some
            &&& recipient_amount(doc_field(doc, 4), shares, i) is Some
            &&& fits_i64(net + tax)
            &&& combined_reachable(doc.net_spec(), doc.discount_spec(), s, net)
            &&& (doc.tax_spec().len() == 0 || target_reachable(doc.tax_spec(), s, tax))
            &&& sums_fit(corrected_discounts(doc.net_spec(), doc.discount_spec(), s, net))
        },
        _ => false,
    }
}

/// Every amount splitting `doc` by `shares` forms can be formed: the shares
/// of its totals and of each breakdown entry with what they leave, and each
/// recipient's document ([`recipient_arith_ok`]).
pub open spec fn split_arith_ok(doc: BillingDocument, shares: Seq<Decimal>) -> bool {
    &&& forall|f: int| 0 <= f < 5 && f != 2 ==> remainders_fit(#[trigger] doc_field(doc, f), shares)
    &&& forall|e: int| 0 <= e < doc.breakdown_spec().len() ==> remainders_fit(#[trigger] entry_field(doc, e, true), shares)
        && remainders_fit(entry_field(doc, e, false), shares)
    &&& forall|i: int| 0 <= i < shares.len() ==> #[trigger] recipient_arith_ok(doc, shares, i)
}

/// A document recipient `i` could be given: shaped like `doc`, holding its
/// positions scaled by the share, and, but for the last, the share's portion.
pub open spec fn recipient_candidate(d: BillingDocument, doc: BillingDocument, shares: Seq<Decimal>, i: int) -> bool {
    &&& recipient_shape(d, doc, i)
    &&& scaled_positions(d, doc, shares[i])
    &&& i < shares.len() - 1 ==> portion(d, doc, shares[i])
}

/// What recipients who took their portions took of a total is what
/// [`shares_taken`] says.
proof fn lemma_taken_totals(docs: Seq<BillingDocument>, doc: BillingDocument, shares: Seq<Decimal>, f: int)
    requires
        0 <= f < 5 && f != 2,
        docs.len() <= shares.len(),
        forall|k: int| 0 <= k < docs.len() ==> portion(#[trigger] docs[k], doc, shares[k]),
    ensures
        shares_taken(doc_field(doc, f), shares, docs.len() as int) == Some(doc_sum(docs, f)),
    decreases docs.len(),
{
    if docs.len() > 0 {
        let rest = docs.drop_last();
        assert forall|k: int| 0 <= k < rest.len() implies portion(#[trigger] rest[k], doc, shares[k]) by {
            assert(rest[k] == docs[k]);
        }
        lemma_taken_totals(rest, doc, shares, f);
        assert(portion(docs[docs.len() - 1], doc, shares[docs.len() - 1]));
    }
}

/// The same for the base or the tax of a breakdown entry.
proof fn lemma_taken_entries(docs: Seq<BillingDocument>, doc: BillingDocument, shares: Seq<Decimal>, e: int, base: bool)
    requires
        0 <= e < doc.breakdown_spec().len(),
        docs.len() <= shares.len(),
        forall|k: int| 0 <= k < docs.len() ==> portion(#[trigger] docs[k], doc, shares[k]),
    ensures
        shares_taken(entry_field(doc, e, base), shares, docs.len() as int) == Some(entry_sum(docs, e, base)),
    decreases docs.len(),
{
    if docs.len() > 0 {
        let rest = docs.drop_last();
        assert forall|k: int| 0 <= k < rest.len() implies portion(#[trigger] rest[k], doc, shares[k]) by {
            assert(rest[k] == docs[k]);
        }
        lemma_taken_entries(rest, doc, shares, e, base);
        let l = docs.len() - 1;
        assert(portion(docs[l], doc, shares[l]));
        assert(share_of(entry_field(doc, e, true), shares[l]) == Some(entry_field(docs[l], e, true)));
        assert(share_of(entry_field(doc, e, false), shares[l]) == Some(entry_field(docs[l], e, false)));
    }
}

/// What splitting holds at recipient `i`, after recipients who took their
/// portions: what they took, and that this recipient's amounts and what
/// they leave can be formed.
proof fn lemma_recipient_step(doc: BillingDocument, shares: Seq<Decimal>, docs: Seq<BillingDocument>, i: int)
    requires
        split_arith_ok(doc, shares),
        0 <= i < shares.len(),
        docs.len() == i,
        forall|k: int| 0 <= k < i ==> portion(#[trigger] docs[k], doc, shares[k]),
    ensures
        recipient_arith_ok(doc, shares, i),
        forall|f: int| 0 <= f < 5 && f != 2 ==> #[trigger] shares_taken(doc_field(doc, f), shares, i) == Some(doc_sum(docs, f)),
        i < shares.len() - 1 ==> forall|f: int| 0 <= f < 5 && f != 2 ==> (#[trigger] share_of(doc_field(doc, f), shares[i]) matches Some(b)
            && fits_i64(doc_field(doc, f) - doc_sum(docs, f) - b)),
        i < shares.len() - 1 ==> forall|e: int| 0 <= e < doc.breakdown_spec().len() ==> {
            &&& #[trigger] share_of(entry_field(doc, e, true), shares[i]) matches Some(b) && fits_i64(
                entry_field(doc, e, true) - entry_sum(docs, e, true) - b,
            )
            &&& share_of(entry_field(doc, e, false), shares[i]) matches Some(t) && fits_i64(
                entry_field(doc, e, false) - entry_sum(docs, e, false) - t,
            )
        },
        i == shares.len() - 1 ==> forall|f: int| 0 <= f < 5 && f != 2 ==> #[trigger] recipient_amount(doc_field(doc, f), shares, i)
            == Some(doc_field(doc, f) - doc_sum(docs, f)),
{
    assert(recipient_arith_ok(doc, shares, i));
    assert forall|f: int| 0 <= f < 5 && f != 2 implies #[trigger] shares_taken(doc_field(doc, f), shares, i) == Some(
        doc_sum(docs, f),
    ) by {
        lemma_taken_totals(docs, doc, shares, f);
    }
    if i < shares.len() - 1 {
        assert forall|f: int| 0 <= f < 5 && f != 2 implies (#[trigger] share_of(doc_field(doc, f), shares[i]) matches Some(b)
            && fits_i64(doc_field(doc, f) - doc_sum(docs, f) - b)) by {
            lemma_taken_totals(docs, doc, shares, f);
            assert(remainders_fit(doc_field(doc, f), shares));
            assert(shares_taken(doc_field(doc, f), shares, i + 1) is Some);
        }
        assert forall|e: int| 0 <= e < doc.breakdown_spec().len() implies {
            &&& #[trigger] share_of(entry_field(doc, e, true), shares[i]) matches Some(b) && fits_i64(
                entry_field(doc, e, true) - entry_sum(docs, e, true) - b,
            )
            &&& share_of(entry_field(doc, e, false), shares[i]) matches Some(t) && fits_i64(
                entry_field(doc, e, false) - entry_sum(docs, e, false) - t,
            )
        } by {
            lemma_taken_entries(docs, doc, shares, e, true);
            lemma_taken_entries(docs, doc, shares, e, false);
            assert(remainders_fit(entry_field(doc, e, true), shares) && remainders_fit(entry_field(doc, e, false), shares));
            assert(shares_taken(entry_field(doc, e, true), shares, i + 1) is Some);
            assert(shares_taken(entry_field(doc, e, false), shares, i + 1) is Some);
        }
    } else {
        assert forall|f: int| 0 <= f < 5 && f != 2 implies #[trigger] recipient_amount(doc_field(doc, f), shares, i) == Some(
            doc_field(doc, f) - doc_sum(docs, f),
        ) by {
            lemma_taken_totals(docs, doc, shares, f);
        }
    }
}

/// A document cannot be allocated: it carries a cash-rounding rule or
/// itemised advances.
pub open spec fn allocation_refused(doc: BillingDocument) -> bool {
    doc.cash_rounding_spec() is Some || (doc.prepayment_spec() matches Prepayment::Itemised(v) && v@.len() > 0)
}

/// Recipient `i`'s share of `doc` under `share`: every total and every
/// breakdown entry's base and tax is `share_of` that of `doc`.
pub open spec fn portion(d: BillingDocument, doc: BillingDocument, share: Decimal) -> bool {
    &&& forall|k: int| 0 <= k < 5 && k != 2 ==> share_of(doc_field(doc, k), share) == Some(#[trigger] doc_field(d, k))
    &&& forall|e: int| 0 <= e < doc.breakdown_spec().len() ==> share_of(entry_field(doc, e, true), share) == Some(
        #[trigger] entry_field(d, e, true),
    ) && share_of(entry_field(doc, e, false), share) == Some(entry_field(d, e, false))
}

/// Recipient `i`'s document has the shape of `doc`: the header with
/// `/i+1` appended to the invoice number; as many positions of each kind;
/// the breakdown's groups and reasons.
pub open spec fn recipient_shape(d: BillingDocument, doc: BillingDocument, i: int) -> bool {
    &&& d.meta_spec() == (DocumentMeta {
        invoice_number: d.meta_spec().invoice_number,
        labels: d.meta_spec().labels,
        ..doc.meta_spec()
    })
    &&& d.meta_spec().labels@ == doc.meta_spec().labels@
    &&& d.meta_spec().invoice_number@ == doc.meta_spec().invoice_number@ + "/"@ + nat_text((i + 1) as nat)
    &&& d.net_spec().len() == doc.net_spec().len() && d.discount_spec().len() == doc.discount_spec().len()
    &&& d.tax_spec().len() == doc.tax_spec().len()
    &&& d.breakdown_spec().len() == doc.breakdown_spec().len()
    &&& forall|e: int| 0 <= e < doc.breakdown_spec().len() ==> {
        let x = #[trigger] d.breakdown_spec()[e];
        let y = doc.breakdown_spec()[e];
        x.category == y.category && x.rate == y.rate && x.exemption_reason == y.exemption_reason
            && x.exemption_reason_code == y.exemption_reason_code
    }
}

/// `docs` splits `doc` by `shares`: one valid document per share, shaped
/// like `doc` and holding its positions scaled by the share
/// ([`scaled_positions`]); each but the last is the share's portion; the last
/// takes the remainders, so every total and every breakdown entry sums
/// exactly to that of `doc`.
pub open spec fn splits(docs: Seq<BillingDocument>, doc: BillingDocument, shares: Seq<Decimal>) -> bool {
    &&& docs.len() == shares.len()
    &&& forall|i: int| 0 <= i < docs.len() ==> scaled_positions(#[trigger] docs[i], doc, shares[i])
    &&& forall|i: int| 0 <= i < docs.len() ==> (#[trigger] docs[i]).doc_valid() && recipient_shape(docs[i], doc, i)
    &&& forall|i: int| 0 <= i < docs.len() - 1 ==> portion(#[trigger] docs[i], doc, shares[i])
    &&& docs.len() > 0 ==> {
        &&& forall|k: int| 0 <= k < 5 && k != 2 ==> #[trigger] doc_sum(docs, k) == doc_field(doc, k)
        &&& forall|e: int| 0 <= e < doc.breakdown_spec().len() ==> #[trigger] entry_sum(docs, e, true) == entry_field(
            doc,
            e,
            true,
        ) && entry_sum(docs, e, false) == entry_field(doc, e, false)
    }
}

/// `q` keeps what scaling `p` keeps: description, price, period, tags, VAT
/// attribution and metadata, the unit of its quantity, and whether it has a
/// quantity and an allowance/charge.
pub open spec fn scaled_like(q: LineItem, p: LineItem) -> bool {
    &&& q.description == p.description && q.unit_price == p.unit_price && q.period == p.period
    &&& q.tags@ == p.tags@ && q.vat == p.vat && q.metadata@ == p.metadata@
    &&& (p.allowance_charge is None <==> q.allowance_charge is None)
    &&& (p.quantity is None <==> q.quantity is None)
    &&& q.quantity matches Some(x) ==> x.unit == p.quantity->0.unit && x.code == p.quantity->0.code
}

/// `q`'s net amount is `p`'s times `share`, rounded to five places half away
/// from zero, and it keeps `p`'s sign.
pub open spec fn scaled_net(q: LineItem, p: LineItem, share: Decimal) -> bool {
    &&& q.sign == p.sign
    &&& decimal_product(p.net_amount@ as int, 5, share.m(), share.s()) matches Some((pm, ps))
        && q.net_amount@ == rounded_raw(pm, ps, 5, RoundingStrategy::MidpointAwayFromZero)
}

/// A recipient's positions are those of `doc` scaled by `share`: each keeps
/// what scaling keeps, and each net amount is the rounded share of its
/// source, but for the one position of each group that absorbs the rounding
/// difference to the recipient's total: the last discount (the last net
/// position where there are no discounts) for the net positions and
/// discounts together, the last tax position for the tax positions.
pub open spec fn scaled_positions(d: BillingDocument, doc: BillingDocument, share: Decimal) -> bool {
    let (n, dn, t) = (d.net_spec(), d.discount_spec(), d.tax_spec());
    let (sn, sd, st) = (doc.net_spec(), doc.discount_spec(), doc.tax_spec());
    &&& n.len() == sn.len() && dn.len() == sd.len() && t.len() == st.len()
    &&& forall|i: int| 0 <= i < n.len() ==> scaled_like(#[trigger] n[i], sn[i])
    &&& forall|i: int| 0 <= i < dn.len() ==> scaled_like(#[trigger] dn[i], sd[i])
    &&& forall|i: int| 0 <= i < t.len() ==> scaled_like(#[trigger] t[i], st[i])
    &&& forall|i: int| 0 <= i < n.len() && (dn.len() > 0 || i < n.len() - 1) ==> scaled_net(#[trigger] n[i], sn[i], share)
    &&& forall|i: int| 0 <= i < dn.len() - 1 ==> scaled_net(#[trigger] dn[i], sd[i], share)
    &&& forall|i: int| 0 <= i < t.len() - 1 ==> scaled_net(#[trigger] t[i], st[i], share)
}

/// The net amount of `p` times `share`, rounded to five places half away
/// from zero (zero where the product cannot be formed).
pub open spec fn scaled_raw(p: LineItem, share: Decimal) -> int {
    match decimal_product(p.net_amount@ as int, 5, share.m(), share.s()) {
        Some((pm, ps)) => rounded_raw(pm, ps, 5, RoundingStrategy::MidpointAwayFromZero),
        None => 0,
    }
}

/// The net amounts of `items` scaled by `share`.
pub open spec fn scaled_amounts(items: Seq<LineItem>, share: Decimal) -> Seq<Amount<5>> {
    items.map_values(|p: LineItem| Amount::<5>::from_raw_spec(scaled_raw(p, share)))
}

/// Every position of `items` can be scaled by `share`.
pub open spec fn all_scale(items: Seq<LineItem>, share: Decimal) -> bool {
    forall|i: int| 0 <= i < items.len() ==> (#[trigger] items[i]).scales(share, RoundingStrategy::MidpointAwayFromZero)
}

/// The positions `items`, scaled by `share`, can be brought to sum to
/// `target` by correcting the last of them: every position scales, their
/// running totals fit `i64`, and where they miss the target the difference
/// and the corrected last amount fit `i64`.
pub open spec fn target_reachable(items: Seq<LineItem>, share: Decimal, target: int) -> bool {
    let sa = scaled_amounts(items, share);
    let c = target - raw_sum(sa);
    &&& all_scale(items, share)
    &&& sums_fit(sa)
    &&& raw_sum(sa) != target ==> fits_i64(c) && fits_i64(scaled_raw(items.last(), share) + c)
}

/// Positions `net` and discounts `disc`, scaled by `share`, can be brought
/// to sum to `target` together by correcting the last discount (the last
/// position where there are no discounts).
pub open spec fn combined_reachable(net: Seq<LineItem>, disc: Seq<LineItem>, share: Decimal, target: int) -> bool {
    let sa = scaled_amounts(net, share) + scaled_amounts(disc, share);
    let c = target - raw_sum(sa);
    &&& all_scale(net, share) && all_scale(disc, share)
    &&& sums_fit(sa)
    &&& raw_sum(sa) != target ==> fits_i64(c) && (disc.len() > 0 ==> fits_i64(scaled_raw(disc.last(), share) + c)) && (
    disc.len() == 0 && net.len() > 0 ==> fits_i64(scaled_raw(net.last(), share) + c))
}

/// The sign a position takes for net amount `v`: debit above zero, credit
/// below, `s` at zero.
pub open spec fn sign_for(v: int, s: Sign) -> Sign {
    if v > 0 {
        Sign::Debit
    } else if v < 0 {
        Sign::Credit
    } else {
        s
    }
}

/// Scale each position by `share`; `Err(MonetaryOverflow)` exactly where one
/// does not scale.
fn scale_items(items: &[LineItem], share: Decimal) -> (r: Result<Vec<LineItem>, BillingError>)
    ensures
        r is Ok <==> all_scale(items@, share),
        r matches Err(e) ==> e is MonetaryOverflow,
        r matches Ok(v) ==> v@.len() == items@.len() && forall|i: int| 0 <= i < v@.len() ==> scaled_like(
            #[trigger] v@[i],
            items@[i],
        ) && scaled_net(v@[i], items@[i], share),
        r matches Ok(v) ==> nets(v@) == scaled_amounts(items@, share),
{
    let mut out: Vec<LineItem> = Vec::new();
    let mut i: usize = 0;
    while i < items.len()
        invariant
            i <= items.len(),
            out@.len() == i,
            forall|k: int| 0 <= k < i ==> scaled_like(#[trigger] out@[k], items@[k]) && scaled_net(out@[k], items@[k], share),
            forall|k: int| 0 <= k < i ==> (#[trigger] out@[k]).net_amount == Amount::<5>::from_raw_spec(scaled_raw(items@[k], share)),
            forall|k: int| 0 <= k < i ==> (#[trigger] items@[k]).scales(share, RoundingStrategy::MidpointAwayFromZero),
        decreases items.len() - i,
    {
        let item = items[i].scaled(share, RoundingStrategy::MidpointAwayFromZero)?;
        proof {
            Amount::<5>::lemma_from_raw_spec(item.net_amount);
        }
        out.push(item);
        i = i + 1;
    }
    assert(nets(out@) =~= scaled_amounts(items@, share));
    Ok(out)
}

/// Add `correction` to the last position and re-derive its sign;
/// `Err(MonetaryOverflow)`, with the positions untouched, where the sum
/// leaves `i64`.
fn correct_last(items: &mut Vec<LineItem>, correction: Amount<5>) -> (r: Result<(), BillingError>)
    requires
        old(items)@.len() > 0,
    ensures
        r is Ok <==> fits_i64(old(items)@.last().net_amount@ + correction@),
        r matches Err(e) ==> e is MonetaryOverflow && final(items)@ == old(items)@,
        r is Ok ==> {
            &&& final(items)@.len() == old(items)@.len()
            &&& forall|i: int| 0 <= i < old(items)@.len() - 1 ==> #[trigger] final(items)@[i] == old(items)@[i]
            &&& {
                let l = old(items)@.len() - 1;
                let v = old(items)@[l].net_amount@ + correction@;
                &&& final(items)@[l].net_amount@ == v
                &&& final(items)@[l].sign == sign_for(v, old(items)@[l].sign)
                &&& final(items)@[l] == (LineItem {
                    net_amount: final(items)@[l].net_amount,
                    sign: final(items)@[l].sign,
                    ..old(items)@[l]
                })
            }
        },
{
    let last = items.len() - 1;
    let net = items[last].net_amount.checked_add(correction)?;
    let mut x = items.remove(last);
    x.net_amount = net;
    x.normalize_sign();
    items.insert(last, x);
    Ok(())
}

/// Scale positions by `share` and correct the last one so that they sum to
/// `target`; `Err(MonetaryOverflow)` exactly where that cannot be done
/// ([`target_reachable`]).
fn scale_with_target(positions: &[LineItem], share: Decimal, target: Amount<5>) -> (r: Result<Vec<LineItem>, BillingError>)
    ensures
        r is Ok <==> (positions@.len() == 0 || target_reachable(positions@, share, target@ as int)),
        r matches Err(e) ==> e is MonetaryOverflow,
        r matches Ok(v) ==> {
            &&& v@.len() == positions@.len()
            &&& forall|i: int| 0 <= i < v@.len() ==> scaled_like(#[trigger] v@[i], positions@[i])
            &&& forall|i: int| 0 <= i < v@.len() - 1 ==> scaled_net(#[trigger] v@[i], positions@[i], share)
            &&& v@.len() > 0 ==> raw_sum(nets(v@)) == target@
        },
{
    if positions.len() == 0 {
        return Ok(Vec::new());
    }
    let mut items = scale_items(positions, share)?;
    let ghost sa = scaled_amounts(positions@, share);
    let none: Vec<LineItem> = Vec::new();
    assert(items@ + none@ =~= items@);
    let sum = sum_nets(items.as_slice(), none.as_slice())?;
    if sum.to_raw() != target.to_raw() {
        let correction = target.checked_sub(sum)?;
        let ghost before = items@;
        assert(before.last().net_amount@ == scaled_raw(positions@.last(), share)) by {
            let l = before.len() - 1;
            assert(nets(before)[l] == sa[l]);
            Amount::<5>::lemma_raw_of(scaled_raw(positions@[l], share));
        }
        correct_last(&mut items, correction)?;
        proof {
            lemma_last_corrected(before, items@, correction@ as int);
        }
    }
    Ok(items)
}

/// Changing the last net amount of `a` by `c` changes their sum by `c`.
proof fn lemma_last_corrected(a: Seq<LineItem>, b: Seq<LineItem>, c: int)
    requires
        a.len() > 0,
        b.len() == a.len(),
        forall|i: int| 0 <= i < a.len() - 1 ==> #[trigger] b[i] == a[i],
        b.last().net_amount@ == a.last().net_amount@ + c,
    ensures
        raw_sum(nets(b)) == raw_sum(nets(a)) + c,
{
    assert(nets(b).drop_last() =~= nets(a).drop_last());
}

/// Changing the last discount (else the last position) by `c` changes the
/// sum of both lists by `c`.
proof fn lemma_pair_corrected(n: Seq<LineItem>, d: Seq<LineItem>, n2: Seq<LineItem>, d2: Seq<LineItem>, c: int)
    requires
        n2.len() == n.len() && d2.len() == d.len(),
        d.len() > 0 ==> n2 == n && raw_sum(nets(d2)) == raw_sum(nets(d)) + c,
        d.len() == 0 ==> n.len() > 0 && raw_sum(nets(n2)) == raw_sum(nets(n)) + c,
    ensures
        raw_sum(nets(n2 + d2)) == raw_sum(nets(n + d)) + c,
{
    lemma_sum_concat(n, d);
    lemma_sum_concat(n2, d2);
}

/// The sum over two lists is the sum of their sums.
proof fn lemma_sum_concat(a: Seq<LineItem>, b: Seq<LineItem>)
    ensures
        raw_sum(nets(a + b)) == raw_sum(nets(a)) + raw_sum(nets(b)),
    decreases b.len(),
{
    if b.len() == 0 {
        assert(a + b =~= a);
    } else {
        lemma_sum_concat(a, b.drop_last());
        assert(nets(a + b).drop_last() =~= nets(a + b.drop_last()));
        assert(nets(b).drop_last() =~= nets(b.drop_last()));
    }
}

/// Scale positions and discounts by `share` together, correcting the last
/// discount (else the last position) so that both sum to `target`;
/// `Err(MonetaryOverflow)` exactly where that cannot be done
/// ([`combined_reachable`]).
fn scale_combined_net(net: &[LineItem], discounts: &[LineItem], share: Decimal, target: Amount<5>) -> (r: Result<
    (Vec<LineItem>, Vec<LineItem>),
    BillingError,
>)
    ensures
        r is Ok <==> combined_reachable(net@, discounts@, share, target@ as int),
        r matches Err(e) ==> e is MonetaryOverflow,
        r matches Ok((a, b)) ==> {
            &&& a@.len() == net@.len() && b@.len() == discounts@.len()
            &&& forall|i: int| 0 <= i < a@.len() ==> scaled_like(#[trigger] a@[i], net@[i])
            &&& forall|i: int| 0 <= i < b@.len() ==> scaled_like(#[trigger] b@[i], discounts@[i])
            &&& forall|i: int| 0 <= i < a@.len() && (b@.len() > 0 || i < a@.len() - 1) ==> scaled_net(
                #[trigger] a@[i],
                net@[i],
                share,
            )
            &&& forall|i: int| 0 <= i < b@.len() - 1 ==> scaled_net(#[trigger] b@[i], discounts@[i], share)
            &&& a@.len() + b@.len() > 0 ==> raw_sum(nets(a@ + b@)) == target@
            &&& nets(b@) == corrected_discounts(net@, discounts@, share, target@ as int)
        },
{
    let mut a = scale_items(net, share)?;
    let mut b = scale_items(discounts, share)?;
    assert(nets(a@ + b@) =~= scaled_amounts(net@, share) + scaled_amounts(discounts@, share));
    let combined = sum_nets(a.as_slice(), b.as_slice())?;
    let ghost sd = scaled_amounts(discounts@, share);
    let ghost sn = scaled_amounts(net@, share);
    proof {
        lemma_sum_concat(a@, b@);
        if sd.len() > 0 {
            assert(nets(b@).drop_last() =~= sd.drop_last());
            assert(raw_sum(nets(b@)) == raw_sum(sd.drop_last()) + sd.last()@);
        }
    }
    if combined.to_raw() != target.to_raw() {
        let correction = target.checked_sub(combined)?;
        let ghost a0 = a@;
        let ghost b0 = b@;
        if b.len() > 0 {
            assert(b0.last().net_amount@ == scaled_raw(discounts@.last(), share)) by {
                let l = b0.len() - 1;
                assert(nets(b0)[l] == scaled_amounts(discounts@, share)[l]);
                Amount::<5>::lemma_raw_of(scaled_raw(discounts@[l], share));
            }
            correct_last(&mut b, correction)?;
            proof {
                lemma_last_corrected(b0, b@, correction@ as int);
                lemma_pair_corrected(a0, b0, a@, b@, correction@ as int);
                let l = b0.len() - 1;
                Amount::<5>::lemma_from_raw_spec(b@[l].net_amount);
                assert(nets(b@) =~= corrected_discounts(net@, discounts@, share, target@ as int));
            }
        } else if a.len() > 0 {
            assert(a0.last().net_amount@ == scaled_raw(net@.last(), share)) by {
                let l = a0.len() - 1;
                assert(nets(a0)[l] == scaled_amounts(net@, share)[l]);
                Amount::<5>::lemma_raw_of(scaled_raw(net@[l], share));
            }
            correct_last(&mut a, correction)?;
            proof {
                lemma_last_corrected(a0, a@, correction@ as int);
                lemma_pair_corrected(a0, b0, a@, b@, correction@ as int);
                assert(nets(b@) =~= corrected_discounts(net@, discounts@, share, target@ as int));
            }
        }
    } else {
        proof {
            if sd.len() > 0 {
                let l = sd.len() - 1;
                Amount::<5>::lemma_from_raw_spec(sd[l]);
            }
            assert(nets(b@) =~= corrected_discounts(net@, discounts@, share, target@ as int));
        }
    }
    Ok((a, b))
}

/// A breakdown entry `x` can be split off by `share` from the remainders
/// `rem`: its base's and its tax's shares fit `i64`, and so do the
/// remainders less them.
pub open spec fn entry_splits(x: TaxBreakdownEntry, rem: (Amount<5>, Amount<5>), share: Decimal) -> bool {
    &&& share_of(x.taxable_base@ as int, share) matches Some(b) && fits_i64(rem.0@ - b)
    &&& share_of(x.tax_amount@ as int, share) matches Some(t) && fits_i64(rem.1@ - t)
}

/// One recipient's breakdown: each entry's base and tax is the share's
/// portion of the entry of `bd`, taken off the remainders `rem`; the last
/// recipient takes the remainders. `Err(MonetaryOverflow)` exactly where an
/// entry cannot be split off ([`entry_splits`]).
fn split_breakdown(bd: &[TaxBreakdownEntry], rem: &mut Vec<(Amount<5>, Amount<5>)>, share: Decimal, is_last: bool) -> (r:
    Result<Vec<TaxBreakdownEntry>, BillingError>)
    requires
        old(rem)@.len() == bd@.len(),
    ensures
        r is Ok <==> (is_last || forall|e: int| 0 <= e < bd@.len() ==> entry_splits(#[trigger] bd@[e], old(rem)@[e], share)),
        r matches Err(e) ==> e is MonetaryOverflow,
        r matches Ok(v) ==> {
            &&& v@.len() == bd@.len() && final(rem)@.len() == bd@.len()
            &&& forall|e: int| 0 <= e < bd@.len() ==> {
                let x = #[trigger] v@[e];
                let y = bd@[e];
                x.category == y.category && x.rate == y.rate && x.exemption_reason == y.exemption_reason
                    && x.exemption_reason_code == y.exemption_reason_code
            }
            &&& is_last ==> final(rem)@ == old(rem)@ && forall|e: int| 0 <= e < bd@.len() ==> (#[trigger] v@[e]).taxable_base
                == old(rem)@[e].0 && v@[e].tax_amount == old(rem)@[e].1
            &&& !is_last ==> forall|e: int| 0 <= e < bd@.len() ==> {
                &&& share_of(bd@[e].taxable_base@ as int, share) == Some((#[trigger] v@[e]).taxable_base@ as int)
                &&& share_of(bd@[e].tax_amount@ as int, share) == Some(v@[e].tax_amount@ as int)
                &&& final(rem)@[e].0@ == old(rem)@[e].0@ - v@[e].taxable_base@
                &&& final(rem)@[e].1@ == old(rem)@[e].1@ - v@[e].tax_amount@
            }
        },
{
    let ghost before = rem@;
    let mut out: Vec<TaxBreakdownEntry> = Vec::new();
    let mut e: usize = 0;
    while e < bd.len()
        invariant
            before == old(rem)@,
            before.len() == bd@.len(),
            rem@.len() == bd@.len(),
            e <= bd@.len(),
            out@.len() == e,
            forall|j: int| 0 <= j < e ==> {
                let x = #[trigger] out@[j];
                let y = bd@[j];
                x.category == y.category && x.rate == y.rate && x.exemption_reason == y.exemption_reason
                    && x.exemption_reason_code == y.exemption_reason_code
            },
            forall|j: int| e <= j < bd@.len() ==> #[trigger] rem@[j] == before[j],
            !is_last ==> forall|j: int| 0 <= j < e ==> entry_splits(#[trigger] bd@[j], before[j], share),
            is_last ==> rem@ == before && forall|j: int| 0 <= j < e ==> (#[trigger] out@[j]).taxable_base == before[j].0
                && out@[j].tax_amount == before[j].1,
            !is_last ==> forall|j: int| 0 <= j < e ==> {
                &&& share_of(bd@[j].taxable_base@ as int, share) == Some((#[trigger] out@[j]).taxable_base@ as int)
                &&& share_of(bd@[j].tax_amount@ as int, share) == Some(out@[j].tax_amount@ as int)
                &&& rem@[j].0@ == before[j].0@ - out@[j].taxable_base@
                &&& rem@[j].1@ == before[j].1@ - out@[j].tax_amount@
            },
        decreases bd@.len() - e,
    {
        let src = &bd[e];
        let (base, tax) = if is_last {
            rem[e]
        } else {
            let base = mul_share(src.taxable_base, share)?;
            let tax = mul_share(src.tax_amount, share)?;
            let (b0, t0) = rem[e];
            let b1 = b0.checked_sub(base)?;
            let t1 = t0.checked_sub(tax)?;
            rem.set(e, (b1, t1));
            (base, tax)
        };
        out.push(
            TaxBreakdownEntry {
                category: src.category,
                rate: src.rate,
                taxable_base: base,
                tax_amount: tax,
                exemption_reason: clone_text(&src.exemption_reason),
                exemption_reason_code: clone_text(&src.exemption_reason_code),
            },
        );
        e = e + 1;
    }
    Ok(out)
}

/// The ways splitting a document that is not refused can fail: an amount
/// that cannot be formed, or a recipient's document that fails
/// [`BillingDocument::validate`].
pub open spec fn split_failure(doc: BillingDocument, shares: Seq<Decimal>, e: BillingError) -> bool {
    ||| e is MonetaryOverflow && !split_arith_ok(doc, shares)
    ||| e is InvalidInput && exists|i: int, d: BillingDocument| 0 <= i < shares.len() && #[trigger] recipient_candidate(d, doc, shares, i)
        && !d.doc_valid()
}

/// Split `doc` by `shares`; see [`splits`].
#[verifier::rlimit(30)]
fn split_document(doc: &BillingDocument, shares: &Vec<Decimal>) -> (r: Result<Vec<BillingDocument>, BillingError>)
    ensures
        allocation_refused(*doc) ==> (r matches Err(e) && e is InvalidInput),
        r matches Ok(docs) ==> splits(docs@, *doc, shares@),
        r matches Err(e) ==> (allocation_refused(*doc) || split_failure(*doc, shares@, e)),
{
    if doc.cash_rounding().is_some() {
        return Err(BillingError::invalid_input(
            "cannot allocate a document with a cash-rounding rule: allocate first, then apply rounding per recipient",
        ));
    }
    if doc.advances().len() > 0 {
        return Err(BillingError::invalid_input(
            "cannot allocate a document carrying itemised advance payments: allocate the underlying positions and settle advances per recipient",
        ));
    }
    let n = shares.len();
    let mut docs: Vec<BillingDocument> = Vec::new();
    let mut net_rem = doc.net_total();
    let mut tax_rem = doc.tax_total();
    let mut prepaid_rem = doc.prepaid();
    let mut rounding_rem = doc.rounding();
    let bd = doc.tax_breakdown();
    let mut bd_rem: Vec<(Amount<5>, Amount<5>)> = Vec::new();
    let mut e: usize = 0;
    while e < bd.len()
        invariant
            e <= bd@.len(),
            bd_rem@.len() == e,
            forall|j: int| 0 <= j < e ==> (#[trigger] bd_rem@[j]).0 == bd@[j].taxable_base && bd_rem@[j].1 == bd@[j].tax_amount,
        decreases bd@.len() - e,
    {
        bd_rem.push((bd[e].taxable_base, bd[e].tax_amount));
        e = e + 1;
    }
    let ghost good = split_arith_ok(*doc, shares@);
    let mut i: usize = 0;
    while i < n
        invariant
            !allocation_refused(*doc),
            good == split_arith_ok(*doc, shares@),
            n == shares@.len(),
            i <= n,
            docs@.len() == i,
            bd@ == doc.breakdown_spec(),
            bd_rem@.len() == bd@.len(),
            forall|k: int| 0 <= k < i ==> (#[trigger] docs@[k]).doc_valid() && recipient_shape(docs@[k], *doc, k),
            forall|k: int| 0 <= k < i ==> scaled_positions(#[trigger] docs@[k], *doc, shares@[k]),
            forall|k: int| 0 <= k < i && k < n - 1 ==> portion(#[trigger] docs@[k], *doc, shares@[k]),
            i < n ==> {
                &&& net_rem@ == doc_field(*doc, 0) - doc_sum(docs@, 0)
                &&& tax_rem@ == doc_field(*doc, 1) - doc_sum(docs@, 1)
                &&& prepaid_rem@ == doc_field(*doc, 3) - doc_sum(docs@, 3)
                &&& rounding_rem@ == doc_field(*doc, 4) - doc_sum(docs@, 4)
                &&& forall|j: int| 0 <= j < bd@.len() ==> (#[trigger] bd_rem@[j]).0@ == entry_field(*doc, j, true)
                    - entry_sum(docs@, j, true) && bd_rem@[j].1@ == entry_field(*doc, j, false) - entry_sum(docs@, j, false)
            },
            (i == n && n > 0) ==> {
                &&& forall|k: int| 0 <= k < 5 && k != 2 ==> #[trigger] doc_sum(docs@, k) == doc_field(*doc, k)
                &&& forall|j: int| 0 <= j < bd@.len() ==> #[trigger] entry_sum(docs@, j, true) == entry_field(*doc, j, true)
                    && entry_sum(docs@, j, false) == entry_field(*doc, j, false)
            },
        decreases n - i,
    {
        let share = shares[i];
        let is_last = i == n - 1;
        proof {
            if good {
                lemma_recipient_step(*doc, shares@, docs@, i as int);
            }
        }
        let (net, tax, prepaid, rounding) = if is_last {
            (net_rem, tax_rem, prepaid_rem, rounding_rem)
        } else {
            let net = mul_share(doc.net_total(), share)?;
            let tax = mul_share(doc.tax_total(), share)?;
            net_rem = net_rem.checked_sub(net)?;
            tax_rem = tax_rem.checked_sub(tax)?;
            let p = mul_share(doc.prepaid(), share)?;
            let r = mul_share(doc.rounding(), share)?;
            prepaid_rem = prepaid_rem.checked_sub(p)?;
            rounding_rem = rounding_rem.checked_sub(r)?;
            (net, tax, p, r)
        };
        let ghost rem_before = bd_rem@;
        proof {
            if good {
                assert(recipient_amount(doc_field(*doc, 0), shares@, i as int) == Some(net@ as int));
                assert(recipient_amount(doc_field(*doc, 1), shares@, i as int) == Some(tax@ as int));
                if !is_last {
                    assert forall|e: int| 0 <= e < bd@.len() implies entry_splits(#[trigger] bd@[e], rem_before[e], share) by {
                        assert(share_of(entry_field(*doc, e, true), shares@[i as int]) is Some);
                    }
                }
            }
        }
        let breakdown = split_breakdown(bd, &mut bd_rem, share, is_last)?;
        let gross = net.checked_add(tax)?;
        let (net_positions, discount_positions) = scale_combined_net(
            doc.net_positions(),
            doc.discount_positions(),
            share,
            net,
        )?;
        let tax_positions = scale_with_target(doc.tax_positions(), share, tax)?;
        let mut meta = clone_meta(doc.header());
        let prefix = concat(doc.header().invoice_number.as_str(), "/");
        let number = usize_text(i + 1);
        meta.invoice_number = concat(prefix.as_str(), number.as_str());
        let d = BillingDocument::from_raw(
            DocumentParts {
                meta,
                net_positions,
                tax_positions,
                discount_positions,
                net_total: net,
                tax_total: tax,
                gross_total: gross,
                tax_breakdown: breakdown,
                prepaid,
                rounding,
            },
        )?;
        assert(recipient_candidate(d, *doc, shares@, i as int)) by {
            reveal_strlit("/");
        }
        match d.validate() {
            Ok(()) => {},
            Err(e) => {
                assert(recipient_candidate(d, *doc, shares@, i as int) && !d.doc_valid());
                return Err(BillingError::InvalidInput {
                    reason: join3("allocation produced an inconsistent document: ", e.message().as_str(), ""),
                });
            },
        }
        proof {
            reveal_strlit("/");
            let docs2 = docs@.push(d);
            assert(docs2.drop_last() =~= docs@);
            assert forall|k: int| 0 <= k < 5 implies #[trigger] doc_sum(docs2, k) == doc_sum(docs@, k) + doc_field(d, k) by {}
            assert forall|j: int| 0 <= j < bd@.len() implies #[trigger] entry_sum(docs2, j, true) == entry_sum(docs@, j, true)
                + entry_field(d, j, true) && entry_sum(docs2, j, false) == entry_sum(docs@, j, false) + entry_field(d, j, false) by {}
        }
        docs.push(d);
        i = i + 1;
    }
    Ok(docs)
}

/// Split a billing document across recipients.
pub trait AllocationRule {
    /// Split `doc` into one document per recipient.
    fn allocate(&self, doc: &BillingDocument) -> Result<Vec<BillingDocument>, BillingError>;
}

impl ProportionalAllocation {
    /// Shares taken as given, without the sum-to-one check; for equal
    /// allocation, whose shares `1/n` need not sum to exactly one.
    pub(crate) fn from_shares_unchecked(shares: Vec<Decimal>) -> (a: ProportionalAllocation)
        ensures
            a@ == shares@,
    {
        ProportionalAllocation { shares }
    }
}

impl AllocationRule for ProportionalAllocation {
    /// Split `doc` by the shares ([`splits`]); a document with a cash-rounding
    /// rule or itemised advances is refused with `InvalidInput`. Otherwise it
    /// fails only as [`split_failure`] says: `MonetaryOverflow` where an
    /// amount cannot be formed, `InvalidInput` where a recipient's document
    /// would fail validation.
    fn allocate(&self, doc: &BillingDocument) -> (r: Result<Vec<BillingDocument>, BillingError>)
        ensures
            allocation_refused(*doc) ==> (r matches Err(e) && e is InvalidInput),
            r matches Ok(docs) ==> splits(docs@, *doc, self@),
            r matches Ok(docs) ==> (doc.net_total_spec()@ + doc.tax_total_spec()@ == doc.gross_total_spec()@ && docs@.len()
                > 0 ==> doc_sum(docs@, 2) == doc_field(*doc, 2)),
            r matches Err(e) ==> (allocation_refused(*doc) || split_failure(*doc, self@, e)),
    {
        let r = split_document(doc, &self.shares);
        proof {
            if r is Ok {
                let docs = r->Ok_0@;
                if doc.net_total_spec()@ + doc.tax_total_spec()@ == doc.gross_total_spec()@ && docs.len() > 0 {
                    lemma_split_gross(docs, *doc, self@);
                }
            }
        }
        r
    }
}

/// `n` copies of `share`.
pub open spec fn equal_shares(n: nat, share: Decimal) -> Seq<Decimal> {
    Seq::new(n, |i: int| share)
}

impl AllocationRule for EqualAllocation {
    /// Split `doc` into `n` documents by the share `1/n` as `rust_decimal`
    /// divides it ([`splits`]); the last recipient takes the remainders.
    fn allocate(&self, doc: &BillingDocument) -> (r: Result<Vec<BillingDocument>, BillingError>)
        ensures
            allocation_refused(*doc) ==> (r matches Err(e) && e is InvalidInput),
            r matches Ok(docs) ==> exists|share: Decimal| #[trigger] pair(share) == decimal_quotient(1, 0, self.parts_spec() as int, 0)->0
                && decimal_quotient(1, 0, self.parts_spec() as int, 0) is Some && splits(
                docs@,
                *doc,
                equal_shares(self.parts_spec(), share),
            ),
            r matches Err(e) ==> (allocation_refused(*doc) || decimal_quotient(1, 0, self.parts_spec() as int, 0) is None || exists|
                share: Decimal,
            | #[trigger] pair(share) == decimal_quotient(1, 0, self.parts_spec() as int, 0)->0 && split_failure(
                *doc,
                equal_shares(self.parts_spec(), share),
                e,
            )),
    {
        let share = match Decimal::one().checked_div(&Decimal::from_usize(self.n)) {
            Some(s) => s,
            None => {
                return Err(BillingError::invalid_input("EqualAllocation: n must be > 0"));
            },
        };
        let mut shares: Vec<Decimal> = Vec::new();
        let mut i: usize = 0;
        while i < self.n
            invariant
                i <= self.n,
                shares@ == equal_shares(i as nat, share),
            decreases self.n - i,
        {
            shares.push(share);
            i = i + 1;
            assert(shares@ =~= equal_shares(i as nat, share));
        }
        let r = ProportionalAllocation::from_shares_unchecked(shares).allocate(doc);
        proof {
            assert(pair(share) == decimal_quotient(1, 0, self.parts_spec() as int, 0)->0);
        }
        r
    }
}

proof fn lemma_gross_sum(docs: Seq<BillingDocument>)
    requires
        forall|i: int| 0 <= i < docs.len() ==> (#[trigger] docs[i]).totals_ok(),
    ensures
        doc_sum(docs, 2) == doc_sum(docs, 0) + doc_sum(docs, 1),
    decreases docs.len(),
{
    if docs.len() > 0 {
        let rest = docs.drop_last();
        assert forall|i: int| 0 <= i < rest.len() implies (#[trigger] rest[i]).totals_ok() by {
            assert(rest[i] == docs[i]);
        }
        lemma_gross_sum(rest);
        assert(docs.last() == docs[docs.len() - 1]);
    }
}

/// Allocation keeps the gross total and the amount due: when the gross of
/// `doc` is its net plus its tax, the recipients' gross totals sum to that of
/// `doc`, and so do their amounts due (gross − prepaid + rounding).
pub proof fn lemma_split_gross(docs: Seq<BillingDocument>, doc: BillingDocument, shares: Seq<Decimal>)
    requires
        splits(docs, doc, shares),
        docs.len() > 0,
        doc.net_total_spec()@ + doc.tax_total_spec()@ == doc.gross_total_spec()@,
    ensures
        doc_sum(docs, 2) == doc_field(doc, 2),
        doc_sum(docs, 2) - doc_sum(docs, 3) + doc_sum(docs, 4) == doc.gross_total_spec()@ - doc.prepaid_spec()@
            + doc.rounding_spec()@,
{
    lemma_gross_sum(docs);
    assert(doc_sum(docs, 0) == doc_field(doc, 0));
    assert(doc_sum(docs, 1) == doc_field(doc, 1));
    assert(doc_sum(docs, 3) == doc_field(doc, 3));
    assert(doc_sum(docs, 4) == doc_field(doc, 4));
}

} // verus!
