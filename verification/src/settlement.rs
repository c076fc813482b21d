//! [`CashRounding`] — rounding the payable total to the smallest coin in
//! circulation (EN 16931 BT-114, the rounding amount).
use vstd::prelude::*;

use crate::amount::{round_to_multiple, Amount, RoundingStrategy};
use crate::error::BillingError;

verus! {

/// A cash-rounding rule: an increment plus the strategy used at the midpoint.
#[derive(Debug, Clone, Copy, PartialEq, Eq)]
pub struct CashRounding {
    increment: Amount<5>,
    strategy: RoundingStrategy,
}

impl CashRounding {
    #[verifier::type_invariant]
    spec fn positive_increment(self) -> bool {
        self.increment@ > 0
    }

    /// The rounding increment.
    pub closed spec fn spec_increment(self) -> Amount<5> {
        self.increment
    }

    /// The midpoint strategy.
    pub closed spec fn spec_strategy(self) -> RoundingStrategy {
        self.strategy
    }

    /// `amount` rounded by this rule, as a raw value.
    pub open spec fn rounded_raw(self, amount: Amount<5>) -> int {
        round_to_multiple(amount@ as int, self.spec_increment()@ as int, self.spec_strategy())
    }

    /// Create a rule; `Err(InvalidInput)` exactly when `increment` is not
    /// strictly positive.
    pub fn new(increment: Amount<5>, strategy: RoundingStrategy) -> (r: Result<Self, BillingError>)
        ensures
            increment@ <= 0 <==> r is Err,
            r matches Err(e) ==> e is InvalidInput,
            r matches Ok(c) ==> c.spec_increment() == increment && c.spec_strategy() == strategy,
    {
        if !increment.is_positive() {
            return Err(BillingError::InvalidInput {
                reason: crate::text::join3("cash-rounding increment must be > 0, got ", increment.to_string().as_str(), ""),
            });
        }
        Ok(CashRounding { increment, strategy })
    }

    /// The rounding increment (e.g. `0.05`).
    pub fn increment(&self) -> (a: Amount<5>)
        ensures
            a == self.spec_increment(),
            a@ > 0,
    {
        proof { use_type_invariant(self); }
        self.increment
    }

    /// The midpoint strategy.
    pub fn strategy(&self) -> (s: RoundingStrategy)
        ensures
            s == self.spec_strategy(),
    {
        self.strategy
    }

    /// Round `amount` to the nearest multiple of the increment;
    /// `Err(MonetaryOverflow)` when the multiple leaves `i64`.
    pub fn round(&self, amount: Amount<5>) -> (r: Result<Amount<5>, BillingError>)
        ensures
            match r {
                Ok(a) => a@ == self.rounded_raw(amount),
                Err(e) => !crate::arith::fits_i64(self.rounded_raw(amount)) && e == BillingError::overflow_spec(5, None),
            },
    {
        proof { use_type_invariant(self); }
        amount.round_to_increment(self.increment, self.strategy)
    }

    /// The adjustment to add to `amount` to reach the rounded figure — BT-114:
    /// positive when rounding up, negative when rounding down, and zero when the
    /// amount is already a multiple of the increment.
    pub fn difference(&self, amount: Amount<5>) -> (r: Result<Amount<5>, BillingError>)
        ensures
            match r {
                Ok(d) => d@ == self.rounded_raw(amount) - amount@ && crate::arith::fits_i64(self.rounded_raw(amount)),
                Err(e) => e is MonetaryOverflow,
            },
            r is Ok <==> (crate::arith::fits_i64(self.rounded_raw(amount)) && crate::arith::fits_i64(
                self.rounded_raw(amount) - amount@,
            )),
            amount@ % self.spec_increment()@ == 0 ==> r == Ok::<Amount<5>, BillingError>(Amount::<5>::zero_spec()),
    {
        proof {
            use_type_invariant(self);
            if amount@ % self.increment@ == 0 {
                lemma_multiple_rounds_to_itself(amount@ as int, self.increment@ as int, self.strategy);
            }
        }
        let rounded = self.round(amount)?;
        let d = rounded.checked_sub(amount);
        proof {
            if amount@ % self.increment@ == 0 {
                assert(d matches Ok(x) && x@ == 0);
                Amount::<5>::lemma_zero_spec(d->Ok_0);
            }
        }
        d
    }
}

/// A value that already is a multiple of the step rounds to itself, whatever
/// the strategy.
pub proof fn lemma_multiple_rounds_to_itself(v: int, step: int, mode: RoundingStrategy)
    requires
        step > 0,
        v % step == 0,
    ensures
        round_to_multiple(v, step, mode) == v,
{
    crate::arith::lemma_div_bounds(v, step);
}

} // verus!
