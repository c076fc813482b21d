//! [`LineItem`] — one position on a billing document — and its builder.
use vstd::prelude::*;

use crate::allocation::pair;
use crate::amount::{rounded_raw, Amount, RoundingStrategy};
use crate::arith::{abs, fits_i64};
use crate::decimal::{
    decimal_difference, decimal_product, decimal_quotient, exact_product, pow10, round_dp_spec, strip_zeros,
    Decimal,
};
use crate::error::BillingError;
use crate::period::Period;
use crate::quantity::{Quantity, UnitPrice};
use crate::text::{is_blank, join3, owned, str_eq, trim_spec};
use vstd::string::StringExecFns;
use crate::vat::{line_rate_ok, percent_of, rate_percent_spec, LineVat};

verus! {

/// The outcome of the allowance/charge amount check for a base, a percentage
/// and a stated amount: `None` when `base × pct / 100` cannot be formed,
/// `Some(true)` when `| |amount| − |expected| |` is at most `0.02`.
pub open spec fn percentage_amount_ok(base: int, pct: Decimal, amount: int) -> Option<bool> {
    match decimal_product(base, 5, pct.m(), pct.s()) {
        None => None,
        Some((pm, ps)) => match decimal_quotient(pm, ps, 100, 0) {
            None => None,
            Some((em, es)) => Some(
                match decimal_difference(abs(amount), 5, abs(em), es) {
                    None => false,
                    Some((dm, ds)) => abs(dm) * 100 <= 2 * pow10(ds),
                },
            ),
        },
    }
}

/// The reason and, for a percentage allowance or charge, its basis.
#[derive(Debug, Clone, PartialEq, Eq)]
pub struct AllowanceCharge {
    /// The reason code (UNTDID 5189 for allowances, 7161 for charges).
    pub reason_code: Option<String>,
    /// The base amount the percentage applies to.
    pub base_amount: Option<Amount<5>>,
    /// The percentage, as a percentage (`10` for ten percent).
    pub percentage: Option<Decimal>,
}

impl Default for AllowanceCharge {
    fn default() -> (r: AllowanceCharge)
        ensures
            r.reason_code is None && r.base_amount is None && r.percentage is None,
    {
        AllowanceCharge { reason_code: None, base_amount: None, percentage: None }
    }
}

impl AllowanceCharge {
    /// Whether base amount and percentage are both present or both absent.
    pub open spec fn basis_paired(&self) -> bool {
        self.base_amount is Some <==> self.percentage is Some
    }

    /// The amount check of [`AllowanceCharge::check_amount`]: `Some(true)`
    /// when there is no basis to check against.
    pub open spec fn amount_ok(&self, amount: int) -> Option<bool> {
        match (self.base_amount, self.percentage) {
            (Some(b), Some(p)) => percentage_amount_ok(b@ as int, p, amount),
            _ => Some(true),
        }
    }

    /// A reason code without a percentage basis.
    pub fn coded(reason_code: &str) -> (r: AllowanceCharge)
        ensures
            (r.reason_code matches Some(c) && c@ == reason_code@),
            r.base_amount is None && r.percentage is None,
    {
        AllowanceCharge { reason_code: Some(owned(reason_code)), base_amount: None, percentage: None }
    }

    /// A percentage basis: `rate` (a fraction) of `base`, stored as a
    /// percentage with trailing zeros stripped (`rate` itself where the
    /// product overflows).
    pub fn percentage_of(base: Amount<5>, rate: Decimal) -> (r: AllowanceCharge)
        ensures
            r.reason_code is None && r.base_amount == Some(base),
            (r.percentage matches Some(p) && pair(p) == rate_percent_spec(rate)),
    {
        AllowanceCharge { reason_code: None, base_amount: Some(base), percentage: Some(percent_of(rate)) }
    }

    /// Attach a reason code.
    pub fn with_reason_code(self, code: &str) -> (r: AllowanceCharge)
        ensures
            (r.reason_code matches Some(c) && c@ == code@),
            r.base_amount == self.base_amount && r.percentage == self.percentage,
    {
        AllowanceCharge { reason_code: Some(owned(code)), ..self }
    }

    /// `Err(InvalidInput)` exactly when only one of base amount and
    /// percentage is present.
    pub fn validate(&self) -> (r: Result<(), BillingError>)
        ensures
            r is Ok <==> self.basis_paired(),
            r matches Err(e) ==> e is InvalidInput,
    {
        match (&self.base_amount, &self.percentage) {
            (Some(_), None) => Err(BillingError::invalid_input(
                "allowance/charge base amount (BT-93/BT-100) is set without a percentage (BT-94/BT-101); PEPPOL-EN16931-R042 requires both",
            )),
            (None, Some(p)) => Err(BillingError::InvalidInput {
                reason: join3(
                    "allowance/charge percentage ",
                    p.to_text().as_str(),
                    " (BT-94/BT-101) is set without a base amount (BT-93/BT-100); PEPPOL-EN16931-R041 requires both",
                ),
            }),
            _ => Ok(()),
        }
    }

    /// Check a stated amount against `base × percentage / 100`, allowing
    /// `0.02` either way. `MonetaryOverflow` where the expected amount cannot
    /// be formed.
    pub fn check_amount(&self, amount: Amount<5>) -> (r: Result<(), BillingError>)
        ensures
            match self.amount_ok(amount@ as int) {
                None => r == Err::<(), BillingError>(BillingError::overflow_spec(5, None)),
                Some(true) => r is Ok,
                Some(false) => (r matches Err(e) && e is InvalidInput),
            },
    {
        let (base, pct) = match (&self.base_amount, &self.percentage) {
            (Some(b), Some(p)) => (*b, *p),
            _ => {
                return Ok(());
            },
        };
        let expected = match base.into_decimal().checked_mul(&pct) {
            Some(p) => match p.checked_div(&Decimal::new(100, 0)) {
                Some(e) => e,
                None => {
                    return Err(BillingError::overflow(5, None));
                },
            },
            None => {
                return Err(BillingError::overflow(5, None));
            },
        };
        let slack = Decimal::new(2, 2);
        assert(pow10(2) == 100) by {
            reveal_with_fuel(pow10, 3);
        }
        let within = match amount.into_decimal().abs().checked_sub(&expected.abs()) {
            Some(d) => !slack.lt(&d.abs()),
            None => false,
        };
        if !within {
            let mut reason = join3("allowance/charge states ", pct.to_text().as_str(), "% of ");
            reason.append(base.to_string().as_str());
            reason.append(", which is ");
            reason.append(expected.to_text().as_str());
            reason.append(", but the amount is ");
            reason.append(amount.to_string().as_str());
            reason.append("; PEPPOL-EN16931-R040 allows \u{00b1}0.02");
            return Err(BillingError::InvalidInput { reason });
        }
        Ok(())
    }

    /// Scale the base amount by `factor`, rounding to five places with
    /// `strategy`.
    pub fn scaled(&self, factor: Decimal, strategy: RoundingStrategy) -> (r: Result<AllowanceCharge, BillingError>)
        ensures
            match self.base_amount {
                None => (r matches Ok(a) && a == *self),
                Some(b) => match decimal_product(b@ as int, 5, factor.m(), factor.s()) {
                    None => r == Err::<AllowanceCharge, BillingError>(BillingError::overflow_spec(5, None)),
                    Some((pm, ps)) => {
                        let x = rounded_raw(pm, ps, 5, strategy);
                        if fits_i64(x) {
                            r matches Ok(a) && a.base_amount matches Some(nb) && nb@ == x
                                && a.reason_code == self.reason_code && a.percentage == self.percentage
                        } else {
                            r matches Err(e) && e is MonetaryOverflow
                        }
                    },
                },
            },
    {
        match self.base_amount {
            None => Ok(AllowanceCharge { reason_code: clone_text(&self.reason_code), base_amount: None, percentage: self.percentage }),
            Some(b) => {
                let product = match b.into_decimal().checked_mul(&factor) {
                    Some(p) => p,
                    None => {
                        return Err(BillingError::overflow(5, None));
                    },
                };
                let nb = Amount::<5>::from_decimal_rounded(product, strategy)?;
                Ok(AllowanceCharge { reason_code: clone_text(&self.reason_code), base_amount: Some(nb), percentage: self.percentage })
            },
        }
    }

    /// Negate the base amount; `Err(MonetaryOverflow)` for the one base that
    /// has no negation.
    pub fn negated(&self) -> (r: Result<AllowanceCharge, BillingError>)
        ensures
            match self.base_amount {
                None => (r matches Ok(a) && a == *self),
                Some(b) => if b@ == i64::MIN {
                    r matches Err(e) && e is MonetaryOverflow
                } else {
                    r matches Ok(a) && a.base_amount matches Some(nb) && nb@ == -b@
                        && a.reason_code == self.reason_code && a.percentage == self.percentage
                },
            },
    {
        match self.base_amount {
            None => Ok(AllowanceCharge { reason_code: clone_text(&self.reason_code), base_amount: None, percentage: self.percentage }),
            Some(b) => {
                let nb = b.checked_neg()?;
                Ok(AllowanceCharge { reason_code: clone_text(&self.reason_code), base_amount: Some(nb), percentage: self.percentage })
            },
        }
    }

    /// Drop the percentage basis, keeping the reason code.
    pub fn without_basis(self) -> (r: AllowanceCharge)
        ensures
            r.reason_code == self.reason_code && r.base_amount is None && r.percentage is None,
    {
        AllowanceCharge { base_amount: None, percentage: None, ..self }
    }
}

/// Whether a position adds to or reduces the total.
#[derive(Debug, Clone, Copy, PartialEq, Eq, Hash, Structural)]
pub enum Sign {
    /// A charge.
    Debit,
    /// A credit.
    Credit,
}

/// The value stored under `key`: the first entry with that key.
pub open spec fn meta_lookup(entries: Seq<(String, String)>, key: Seq<char>) -> Option<Seq<char>>
    decreases entries.len(),
{
    if entries.len() == 0 {
        None
    } else if entries[0].0@ == key {
        Some(entries[0].1@)
    } else {
        meta_lookup(entries.drop_first(), key)
    }
}

/// No key is stored twice in `entries`.
pub open spec fn keys_distinct(entries: Seq<(String, String)>) -> bool {
    forall|i: int, j: int| 0 <= i < j < entries.len() ==> (#[trigger] entries[i]).0@ != (#[trigger] entries[j]).0@
}

/// Whether `key` is stored in `entries`.
pub open spec fn meta_has(entries: Seq<(String, String)>, key: Seq<char>) -> bool {
    exists|i: int| 0 <= i < entries.len() && (#[trigger] entries[i]).0@ == key
}

/// `raw` with the sign a position of sign `sign` carries: a credit is never
/// positive.
pub open spec fn signed_net(raw: int, sign: Sign) -> int {
    if sign == Sign::Credit && raw > 0 {
        -raw
    } else {
        raw
    }
}

/// One position on a billing document.
#[derive(Debug, Clone, PartialEq, Eq)]
pub struct LineItem {
    /// Human-readable description; never blank.
    pub description: String,
    /// Quantity and unit, for usage positions.
    pub quantity: Option<Quantity>,
    /// Price per unit, for usage positions.
    pub unit_price: Option<UnitPrice>,
    /// The net amount at five decimal places.
    pub net_amount: Amount<5>,
    /// Debit or credit.
    pub sign: Sign,
    /// The service period.
    pub period: Option<Period>,
    /// Free-form tags.
    pub tags: Vec<String>,
    /// VAT category and rate of this position.
    pub vat: Option<LineVat>,
    /// Reason and basis, for allowances and charges.
    pub allowance_charge: Option<AllowanceCharge>,
    /// Key/value metadata; [`LineItemBuilder::meta`] keeps each key once.
    pub metadata: Vec<(String, String)>,
}

/// A scaled quantity value: `m × 10^-s` rounded half away from zero to
/// twelve places, trailing zeros stripped.
pub open spec fn quantity_rounded(m: int, s: nat) -> (int, nat) {
    let (rm, rs) = round_dp_spec(m, s, 12, RoundingStrategy::MidpointAwayFromZero);
    strip_zeros(rm, rs)
}

impl LineItem {
    /// The checks of [`LineItem::validate`] before the allowance/charge amount
    /// check, in the order they are made.
    pub open spec fn rules_ok(&self) -> bool {
        &&& trim_spec(self.description@).len() > 0
        &&& self.quantity matches Some(q) ==> q.value.m() >= 0 && trim_spec(q.unit@).len() > 0
        &&& self.unit_price matches Some(p) ==> trim_spec(p.unit@).len() > 0
        &&& self.sign == Sign::Credit ==> self.net_amount@ <= 0
        &&& self.vat matches Some(v) ==> line_rate_ok(v.category, v.rate)
        &&& self.allowance_charge matches Some(ac) ==> ac.basis_paired()
    }

    /// Set the sign from the net amount: debit when positive, credit when
    /// negative, unchanged at zero.
    pub fn normalize_sign(&mut self)
        ensures
            final(self).sign == (if old(self).net_amount@ > 0 {
                Sign::Debit
            } else if old(self).net_amount@ < 0 {
                Sign::Credit
            } else {
                old(self).sign
            }),
            *final(self) == (LineItem { sign: final(self).sign, ..*old(self) }),
    {
        if self.net_amount.is_positive() {
            self.sign = Sign::Debit;
        } else if self.net_amount.is_negative() {
            self.sign = Sign::Credit;
        }
    }

    /// Check the position: `Err(InvalidInput)` when [`LineItem::rules_ok`]
    /// fails; otherwise the outcome of the allowance/charge amount check.
    pub fn validate(&self) -> (r: Result<(), BillingError>)
        ensures
            !self.rules_ok() ==> (r matches Err(e) && e is InvalidInput),
            self.rules_ok() ==> match self.allowance_charge {
                None => r is Ok,
                Some(ac) => match ac.amount_ok(self.net_amount@ as int) {
                    None => r == Err::<(), BillingError>(BillingError::overflow_spec(5, None)),
                    Some(true) => r is Ok,
                    Some(false) => (r matches Err(e) && e is InvalidInput),
                },
            },
    {
        if is_blank(self.description.as_str()) {
            return Err(BillingError::invalid_input("LineItem description must not be empty"));
        }
        if let Some(q) = &self.quantity {
            if q.value.is_negative() {
                return Err(BillingError::InvalidInput {
                    reason: join3("LineItem quantity must be non-negative, got ", q.value.to_text().as_str(), ""),
                });
            }
            crate::check_unit("LineItem quantity", q.unit.as_str())?;
        }
        if let Some(p) = &self.unit_price {
            crate::check_unit("LineItem unit_price", p.unit.as_str())?;
        }
        if self.sign == Sign::Credit && self.net_amount.is_positive() {
            return Err(BillingError::InvalidInput {
                reason: join3(
                    "LineItem with Sign::Credit must not have a positive net_amount (got ",
                    self.net_amount.to_string().as_str(),
                    ")",
                ),
            });
        }
        if let Some(vat) = &self.vat {
            vat.validate()?;
        }
        if let Some(ac) = &self.allowance_charge {
            ac.validate()?;
            ac.check_amount(self.net_amount)?;
        }
        Ok(())
    }

    /// Start a debit position.
    pub fn debit(description: &str) -> (b: LineItemBuilder)
        ensures
            b.is_fresh(description@, Sign::Debit),
    {
        LineItemBuilder::new(owned(description), Sign::Debit)
    }

    /// Start a credit position.
    pub fn credit(description: &str) -> (b: LineItemBuilder)
        ensures
            b.is_fresh(description@, Sign::Credit),
    {
        LineItemBuilder::new(owned(description), Sign::Credit)
    }

    /// Start a debit position with a fixed amount.
    pub fn fixed(description: &str, amount: Amount<5>) -> (b: LineItemBuilder)
        ensures
            b.fixed_spec() == Some(amount),
            b.description_spec() == description@ && b.sign_spec() == Sign::Debit,
            b.quantity_spec() is None && b.unit_price_spec() is None,
            b.allowance_charge_spec() is None,
    {
        LineItemBuilder::new(owned(description), Sign::Debit).fixed_amount(amount)
    }

    /// Start a credit position with a fixed amount.
    pub fn credit_fixed(description: &str, amount: Amount<5>) -> (b: LineItemBuilder)
        ensures
            b.fixed_spec() == Some(amount),
            b.description_spec() == description@ && b.sign_spec() == Sign::Credit,
            b.quantity_spec() is None && b.unit_price_spec() is None,
            b.allowance_charge_spec() is None,
    {
        LineItemBuilder::new(owned(description), Sign::Credit).fixed_amount(amount)
    }

    /// Start a debit usage position: `quantity × unit_price`.
    pub fn for_usage(description: &str, quantity: Quantity, unit_price: UnitPrice) -> (b: LineItemBuilder)
        ensures
            b.fixed_spec() is None,
            b.description_spec() == description@ && b.sign_spec() == Sign::Debit,
            b.quantity_spec() == Some(quantity) && b.unit_price_spec() == Some(unit_price),
            b.allowance_charge_spec() is None,
    {
        LineItemBuilder::new(owned(description), Sign::Debit).quantity(quantity).unit_price(unit_price)
    }

    /// Start a credit usage position: `quantity × unit_price`.
    pub fn credit_for_usage(description: &str, quantity: Quantity, unit_price: UnitPrice) -> (b:
        LineItemBuilder)
        ensures
            b.fixed_spec() is None,
            b.description_spec() == description@ && b.sign_spec() == Sign::Credit,
            b.quantity_spec() == Some(quantity) && b.unit_price_spec() == Some(unit_price),
            b.allowance_charge_spec() is None,
    {
        LineItemBuilder::new(owned(description), Sign::Credit).quantity(quantity).unit_price(unit_price)
    }

    /// Whether the position carries `tag`.
    pub fn has_tag(&self, tag: &str) -> (r: bool)
        ensures
            r == exists|i: int| 0 <= i < self.tags.len() && (#[trigger] self.tags[i])@ == tag@,
    {
        let mut i: usize = 0;
        while i < self.tags.len()
            invariant
                i <= self.tags.len(),
                forall|k: int| 0 <= k < i ==> (#[trigger] self.tags[k])@ != tag@,
            decreases self.tags.len() - i,
        {
            if str_eq(self.tags[i].as_str(), tag) {
                return true;
            }
            i = i + 1;
        }
        false
    }

    /// Whether the position is a debit.
    pub fn is_debit(&self) -> (r: bool)
        ensures
            r == (self.sign == Sign::Debit),
    {
        self.sign == Sign::Debit
    }

    /// Whether the position is a credit.
    pub fn is_credit(&self) -> (r: bool)
        ensures
            r == (self.sign == Sign::Credit),
    {
        self.sign == Sign::Credit
    }

    /// The metadata value stored under `key`.
    pub fn get_meta(&self, key: &str) -> (r: Option<&str>)
        ensures
            match meta_lookup(self.metadata@, key@) {
                None => r is None,
                Some(v) => r matches Some(x) && x@ == v,
            },
    {
        let mut i: usize = 0;
        assert(self.metadata@.skip(0) =~= self.metadata@);
        while i < self.metadata.len()
            invariant
                i <= self.metadata.len(),
                meta_lookup(self.metadata@, key@) == meta_lookup(self.metadata@.skip(i as int), key@),
            decreases self.metadata.len() - i,
        {
            assert(self.metadata@.skip(i as int).drop_first() =~= self.metadata@.skip(i as int + 1));
            assert(self.metadata@.skip(i as int)[0] == self.metadata@[i as int]);
            if str_eq(self.metadata[i].0.as_str(), key) {
                return Some(self.metadata[i].1.as_str());
            }
            i = i + 1;
        }
        None
    }

    /// Whether [`LineItem::scaled`] can scale this position by `factor`: the
    /// rounded product of the net amount fits `i64`, so does that of an
    /// allowance/charge base, and the product of a quantity can be formed.
    pub open spec fn scales(self, factor: Decimal, strategy: RoundingStrategy) -> bool {
        &&& decimal_product(self.net_amount@ as int, 5, factor.m(), factor.s()) matches Some((pm, ps)) && fits_i64(
            rounded_raw(pm, ps, 5, strategy),
        )
        &&& self.allowance_charge matches Some(ac) ==> (ac.base_amount matches Some(b) ==> decimal_product(
            b@ as int,
            5,
            factor.m(),
            factor.s(),
        ) matches Some((qm, qs)) && fits_i64(rounded_raw(qm, qs, 5, strategy)))
        &&& self.quantity matches Some(q) ==> decimal_product(q.value.m(), q.value.s(), factor.m(), factor.s()) is Some
    }

    /// Scale the position by `factor`: the net amount is rounded to five
    /// places with `strategy`, an allowance/charge base is scaled the same
    /// way, and the quantity is scaled and rounded to twelve places; `Err(MonetaryOverflow)` exactly where
    /// [`LineItem::scales`] fails.
    pub fn scaled(&self, factor: Decimal, strategy: RoundingStrategy) -> (r: Result<LineItem, BillingError>)
        ensures
            r is Ok <==> self.scales(factor, strategy),
            r matches Ok(item) ==> {
                &&& item.description == self.description && item.sign == self.sign
                &&& item.unit_price == self.unit_price && item.period == self.period
                &&& item.tags@ == self.tags@ && item.vat == self.vat && item.metadata@ == self.metadata@
                &&& decimal_product(self.net_amount@ as int, 5, factor.m(), factor.s()) matches Some((pm, ps)) && item.net_amount@ == rounded_raw(pm, ps, 5, strategy)
                &&& (self.allowance_charge is None <==> item.allowance_charge is None)
                &&& (self.quantity is None <==> item.quantity is None)
                &&& item.quantity matches Some(q) ==> q.unit == self.quantity->0.unit && q.code
                    == self.quantity->0.code
                &&& item.quantity matches Some(q) ==> decimal_product(
                    self.quantity->0.value.m(),
                    self.quantity->0.value.s(),
                    factor.m(),
                    factor.s(),
                ) matches Some((qm, qs)) && (q.value.m(), q.value.s()) == quantity_rounded(qm, qs)
                &&& item.quantity matches Some(q) ==> (exact_product(self.quantity->0.value, factor) ==> (
                    q.value.m(),
                    q.value.s(),
                ) == quantity_rounded(
                    self.quantity->0.value.m() * factor.m(),
                    self.quantity->0.value.s() + factor.s(),
                ))
            },
            decimal_product(self.net_amount@ as int, 5, factor.m(), factor.s()) is None ==> r
                == Err::<LineItem, BillingError>(BillingError::overflow_spec(5, None)),
            r matches Err(e) ==> e is MonetaryOverflow,
    {
        let product = match self.net_amount.into_decimal().checked_mul(&factor) {
            Some(p) => p,
            None => {
                return Err(BillingError::overflow(5, None));
            },
        };
        let net = Amount::<5>::from_decimal_rounded(product, strategy)?;
        let ac = match &self.allowance_charge {
            Some(ac) => Some(ac.scaled(factor, strategy)?),
            None => None,
        };
        let quantity = match &self.quantity {
            Some(q) => {
                let v = match q.value.checked_mul(&factor) {
                    Some(v) => v,
                    None => {
                        return Err(BillingError::overflow(5, None));
                    },
                };
                let v = v.round_dp_with_strategy(12, RoundingStrategy::MidpointAwayFromZero).normalize();
                Some(Quantity { value: v, unit: q.unit.clone(), code: clone_text(&q.code) })
            },
            None => None,
        };
        Ok(LineItem {
            description: self.description.clone(),
            quantity,
            unit_price: clone_price(&self.unit_price),
            net_amount: net,
            sign: self.sign,
            period: clone_period(&self.period),
            tags: clone_texts(&self.tags),
            vat: self.vat,
            allowance_charge: ac,
            metadata: clone_entries(&self.metadata),
        })
    }

    /// The quantity value, for usage positions.
    pub fn quantity_value(&self) -> (r: Option<Decimal>)
        ensures
            match self.quantity {
                Some(q) => r == Some(q.value),
                None => r is None,
            },
    {
        match &self.quantity {
            Some(q) => Some(q.value),
            None => None,
        }
    }

    /// The quantity unit label, for usage positions.
    pub fn unit_label(&self) -> (r: Option<&str>)
        ensures
            match self.quantity {
                Some(q) => r matches Some(u) && u@ == q.unit@,
                None => r is None,
            },
    {
        match &self.quantity {
            Some(q) => Some(q.unit.as_str()),
            None => None,
        }
    }
}

/// Builder for [`LineItem`].
#[derive(Debug)]
pub struct LineItemBuilder {
    description: String,
    sign: Sign,
    quantity: Option<Quantity>,
    unit_price: Option<UnitPrice>,
    fixed_amount: Option<Amount<5>>,
    period: Option<Period>,
    tags: Vec<String>,
    vat: Option<LineVat>,
    allowance_charge: Option<AllowanceCharge>,
    metadata: Vec<(String, String)>,
}

impl LineItemBuilder {
    /// The description.
    pub closed spec fn description_spec(&self) -> Seq<char> {
        self.description@
    }

    /// The sign.
    pub closed spec fn sign_spec(&self) -> Sign {
        self.sign
    }

    /// The quantity.
    pub closed spec fn quantity_spec(&self) -> Option<Quantity> {
        self.quantity
    }

    /// The unit price.
    pub closed spec fn unit_price_spec(&self) -> Option<UnitPrice> {
        self.unit_price
    }

    /// The fixed amount.
    pub closed spec fn fixed_spec(&self) -> Option<Amount<5>> {
        self.fixed_amount
    }

    /// The service period.
    pub closed spec fn period_spec(&self) -> Option<Period> {
        self.period
    }

    /// The tags.
    pub closed spec fn tags_spec(&self) -> Seq<String> {
        self.tags@
    }

    /// The VAT attribution.
    pub closed spec fn vat_spec(&self) -> Option<LineVat> {
        self.vat
    }

    /// The allowance/charge details.
    pub closed spec fn allowance_charge_spec(&self) -> Option<AllowanceCharge> {
        self.allowance_charge
    }

    /// The metadata entries.
    pub closed spec fn metadata_spec(&self) -> Seq<(String, String)> {
        self.metadata@
    }

    /// A builder with a description and a sign and nothing else.
    pub open spec fn is_fresh(&self, description: Seq<char>, sign: Sign) -> bool {
        &&& self.description_spec() == description && self.sign_spec() == sign
        &&& self.quantity_spec() is None && self.unit_price_spec() is None && self.fixed_spec() is None
        &&& self.period_spec() is None && self.tags_spec().len() == 0 && self.vat_spec() is None
        &&& self.allowance_charge_spec() is None && self.metadata_spec().len() == 0
    }

    /// The builder checks before the net amount is formed: a description that
    /// is not blank, unit labels that are not blank, and either a fixed amount
    /// or a non-negative quantity with a unit price.
    pub open spec fn rules_ok(&self) -> bool {
        &&& trim_spec(self.description_spec()).len() > 0
        &&& self.quantity_spec() matches Some(q) ==> trim_spec(q.unit@).len() > 0
        &&& self.unit_price_spec() matches Some(p) ==> trim_spec(p.unit@).len() > 0
        &&& self.fixed_spec() is None ==> (self.quantity_spec() is Some && self.unit_price_spec() is Some
            && self.quantity_spec()->0.value.m() >= 0)
    }

    /// The net amount before the sign is applied: the fixed amount, or
    /// `quantity × (price ÷ base quantity)` (the price itself where there is
    /// no base quantity) rounded half away from zero to five places; `None`
    /// where `rust_decimal` cannot form the quotient or the product.
    pub open spec fn unsigned_net(&self) -> Option<int> {
        match self.fixed_spec() {
            Some(f) => Some(f@ as int),
            None => {
                let q = self.quantity_spec()->0.value;
                let p = self.unit_price_spec()->0;
                let per_unit = match p.base_quantity {
                    None => Some((p.value.m(), p.value.s())),
                    Some(b) => decimal_quotient(p.value.m(), p.value.s(), b.m(), b.s()),
                };
                match per_unit {
                    None => None,
                    Some((um, us)) => match decimal_product(q.m(), q.s(), um, us) {
                        None => None,
                        Some((pm, ps)) => Some(rounded_raw(pm, ps, 5, RoundingStrategy::MidpointAwayFromZero)),
                    },
                }
            },
        }
    }

    fn new(description: String, sign: Sign) -> (b: LineItemBuilder)
        ensures
            b.is_fresh(description@, sign),
    {
        LineItemBuilder {
            description,
            sign,
            quantity: None,
            unit_price: None,
            fixed_amount: None,
            period: None,
            tags: Vec::new(),
            vat: None,
            allowance_charge: None,
            metadata: Vec::new(),
        }
    }

    /// Set the quantity.
    pub fn quantity(self, q: Quantity) -> (b: LineItemBuilder)
        ensures
            b.quantity_spec() == Some(q),
            b.description_spec() == self.description_spec() && b.sign_spec() == self.sign_spec(),
            b.unit_price_spec() == self.unit_price_spec() && b.fixed_spec() == self.fixed_spec(),
            b.period_spec() == self.period_spec() && b.tags_spec() == self.tags_spec(),
            b.vat_spec() == self.vat_spec() && b.allowance_charge_spec() == self.allowance_charge_spec(),
            b.metadata_spec() == self.metadata_spec(),
    {
        LineItemBuilder { quantity: Some(q), ..self }
    }

    /// Set the unit price.
    pub fn unit_price(self, p: UnitPrice) -> (b: LineItemBuilder)
        ensures
            b.unit_price_spec() == Some(p),
            b.description_spec() == self.description_spec() && b.sign_spec() == self.sign_spec(),
            b.quantity_spec() == self.quantity_spec() && b.fixed_spec() == self.fixed_spec(),
            b.period_spec() == self.period_spec() && b.tags_spec() == self.tags_spec(),
            b.vat_spec() == self.vat_spec() && b.allowance_charge_spec() == self.allowance_charge_spec(),
            b.metadata_spec() == self.metadata_spec(),
    {
        LineItemBuilder { unit_price: Some(p), ..self }
    }

    /// Set a fixed net amount, which takes precedence over quantity × price.
    pub fn fixed_amount(self, a: Amount<5>) -> (b: LineItemBuilder)
        ensures
            b.fixed_spec() == Some(a),
            b.description_spec() == self.description_spec() && b.sign_spec() == self.sign_spec(),
            b.quantity_spec() == self.quantity_spec() && b.unit_price_spec() == self.unit_price_spec(),
            b.period_spec() == self.period_spec() && b.tags_spec() == self.tags_spec(),
            b.vat_spec() == self.vat_spec() && b.allowance_charge_spec() == self.allowance_charge_spec(),
            b.metadata_spec() == self.metadata_spec(),
    {
        LineItemBuilder { fixed_amount: Some(a), ..self }
    }

    /// Add a tag.
    pub fn tag(self, t: &str) -> (b: LineItemBuilder)
        ensures
            b.tags_spec().len() == self.tags_spec().len() + 1,
            b.tags_spec().drop_last() == self.tags_spec(),
            b.tags_spec().last()@ == t@,
            b.description_spec() == self.description_spec() && b.sign_spec() == self.sign_spec(),
            b.quantity_spec() == self.quantity_spec() && b.unit_price_spec() == self.unit_price_spec(),
            b.fixed_spec() == self.fixed_spec() && b.period_spec() == self.period_spec(),
            b.vat_spec() == self.vat_spec() && b.allowance_charge_spec() == self.allowance_charge_spec(),
            b.metadata_spec() == self.metadata_spec(),
    {
        let mut s = self;
        s.tags.push(owned(t));
        proof {
            assert(s.tags@.drop_last() =~= self.tags@);
        }
        s
    }

    /// Set the VAT attribution.
    pub fn vat(self, vat: LineVat) -> (b: LineItemBuilder)
        ensures
            b.vat_spec() == Some(vat),
            b.description_spec() == self.description_spec() && b.sign_spec() == self.sign_spec(),
            b.quantity_spec() == self.quantity_spec() && b.unit_price_spec() == self.unit_price_spec(),
            b.fixed_spec() == self.fixed_spec() && b.period_spec() == self.period_spec(),
            b.tags_spec() == self.tags_spec() && b.allowance_charge_spec() == self.allowance_charge_spec(),
            b.metadata_spec() == self.metadata_spec(),
    {
        LineItemBuilder { vat: Some(vat), ..self }
    }

    /// Set the allowance/charge details.
    pub fn allowance_charge(self, ac: AllowanceCharge) -> (b: LineItemBuilder)
        ensures
            b.allowance_charge_spec() == Some(ac),
            b.description_spec() == self.description_spec() && b.sign_spec() == self.sign_spec(),
            b.quantity_spec() == self.quantity_spec() && b.unit_price_spec() == self.unit_price_spec(),
            b.fixed_spec() == self.fixed_spec() && b.period_spec() == self.period_spec(),
            b.tags_spec() == self.tags_spec() && b.vat_spec() == self.vat_spec(),
            b.metadata_spec() == self.metadata_spec(),
    {
        LineItemBuilder { allowance_charge: Some(ac), ..self }
    }

    /// Store `v` under `k`, replacing a value already stored there; no key
    /// is then stored twice where none was before.
    pub fn meta(self, k: &str, v: &str) -> (b: LineItemBuilder)
        ensures
            meta_lookup(b.metadata_spec(), k@) == Some(v@),
            keys_distinct(self.metadata_spec()) ==> keys_distinct(b.metadata_spec()),
            forall|other: Seq<char>| other != k@ ==> meta_lookup(b.metadata_spec(), other) == meta_lookup(
                self.metadata_spec(),
                other,
            ),
            b.description_spec() == self.description_spec() && b.sign_spec() == self.sign_spec(),
            b.quantity_spec() == self.quantity_spec() && b.unit_price_spec() == self.unit_price_spec(),
            b.fixed_spec() == self.fixed_spec() && b.period_spec() == self.period_spec(),
            b.tags_spec() == self.tags_spec() && b.vat_spec() == self.vat_spec(),
            b.allowance_charge_spec() == self.allowance_charge_spec(),
    {
        let n = self.metadata.len();
        let mut i: usize = 0;
        let mut found: Option<usize> = None;
        while i < n
            invariant
                i <= n,
                n == self.metadata.len(),
                found matches Some(j) ==> j < n && self.metadata@[j as int].0@ == k@ && forall|t: int|
                    0 <= t < j ==> (#[trigger] self.metadata@[t]).0@ != k@,
                found is None ==> forall|j: int| 0 <= j < i ==> (#[trigger] self.metadata@[j]).0@ != k@,
            decreases n - i,
        {
            if found.is_none() && str_eq(self.metadata[i].0.as_str(), k) {
                found = Some(i);
            }
            i = i + 1;
        }
        let mut metadata = self.metadata;
        let ghost before = metadata@;
        match found {
            Some(j) => {
                metadata.set(j, (owned(k), owned(v)));
                proof {
                    lemma_meta_replace(before, j as int, k@, metadata@);
                    assert forall|a: int| 0 <= a < metadata@.len() implies (#[trigger] metadata@[a]).0@ == before[a].0@ by {}
                }
            },
            None => {
                metadata.push((owned(k), owned(v)));
                proof {
                    lemma_meta_append(before, k@, metadata@);
                    assert forall|a: int| 0 <= a < before.len() implies (#[trigger] metadata@[a]) == before[a] by {}
                }
            },
        }
        LineItemBuilder { metadata, ..self }
    }

    /// Set the service period.
    pub fn period(self, from: &str, to: &str) -> (b: LineItemBuilder)
        ensures
            (b.period_spec() matches Some(p) && p.from@ == from@ && p.to@ == to@),
            b.description_spec() == self.description_spec() && b.sign_spec() == self.sign_spec(),
            b.quantity_spec() == self.quantity_spec() && b.unit_price_spec() == self.unit_price_spec(),
            b.fixed_spec() == self.fixed_spec() && b.tags_spec() == self.tags_spec(),
            b.vat_spec() == self.vat_spec() && b.allowance_charge_spec() == self.allowance_charge_spec(),
            b.metadata_spec() == self.metadata_spec(),
    {
        LineItemBuilder { period: Some(Period::new(from, to)), ..self }
    }

    /// Validate and build the position.
    ///
    /// `Err(InvalidInput)` when [`LineItemBuilder::rules_ok`] fails. Otherwise
    /// the net amount is [`LineItemBuilder::unsigned_net`] with the sign
    /// applied ([`signed_net`]); `MonetaryOverflow` where it cannot be formed or
    /// leaves `i64`; then an allowance/charge must pair its basis
    /// (`InvalidInput`) and agree with the net amount.
    pub fn build(self) -> (r: Result<LineItem, BillingError>)
        ensures
            !self.rules_ok() ==> (r matches Err(e) && e is InvalidInput),
            self.rules_ok() ==> match self.unsigned_net() {
                None => r == Err::<LineItem, BillingError>(BillingError::overflow_spec(5, None)),
                Some(x) => if !fits_i64(x) {
                    r matches Err(e) && e is MonetaryOverflow
                } else {
                    let net = signed_net(x, self.sign_spec());
                    match self.allowance_charge_spec() {
                        None => r is Ok,
                        Some(ac) => if !ac.basis_paired() {
                            r matches Err(e) && e is InvalidInput
                        } else {
                            match ac.amount_ok(net) {
                                None => r == Err::<LineItem, BillingError>(BillingError::overflow_spec(5, None)),
                                Some(true) => r is Ok,
                                Some(false) => (r matches Err(e) && e is InvalidInput),
                            }
                        },
                    }
                },
            },
            r matches Ok(item) ==> {
                &&& self.rules_ok()
                &&& self.unsigned_net() matches Some(x) && item.net_amount@ == signed_net(x, self.sign_spec())
                &&& item.description@ == self.description_spec() && item.sign == self.sign_spec()
                &&& item.quantity == self.quantity_spec() && item.unit_price == self.unit_price_spec()
                &&& item.period == self.period_spec() && item.tags@ == self.tags_spec()
                &&& item.vat == self.vat_spec() && item.allowance_charge == self.allowance_charge_spec()
                &&& item.metadata@ == self.metadata_spec()
            },
    {
        if is_blank(self.description.as_str()) {
            return Err(BillingError::invalid_input("LineItem description must not be empty"));
        }
        if let Some(q) = &self.quantity {
            crate::check_unit("LineItem quantity", q.unit.as_str())?;
        }
        if let Some(p) = &self.unit_price {
            crate::check_unit("LineItem unit_price", p.unit.as_str())?;
        }
        let net = match self.fixed_amount {
            Some(fixed) => fixed,
            None => match (&self.quantity, &self.unit_price) {
                (Some(qty), Some(price)) => {
                    if qty.value.is_negative() {
                        return Err(BillingError::invalid_input("LineItem quantity must be non-negative"));
                    }
                    let per_unit = match price.per_unit_value() {
                        Ok(v) => v,
                        Err(_) => {
                            return Err(BillingError::overflow(5, None));
                        },
                    };
                    let raw = match qty.value.checked_mul(&per_unit) {
                        Some(x) => x,
                        None => {
                            return Err(BillingError::overflow(5, None));
                        },
                    };
                    Amount::<5>::from_decimal_rounded(raw, RoundingStrategy::MidpointAwayFromZero)?
                },
                _ => {
                    return Err(BillingError::invalid_input("LineItem requires either fixed_amount or both quantity and unit_price"));
                },
            },
        };
        let net = if self.sign == Sign::Credit && net.is_positive() {
            Amount::<5>::from_raw_units(-net.to_raw())
        } else {
            net
        };
        if let Some(ac) = &self.allowance_charge {
            ac.validate()?;
            ac.check_amount(net)?;
        }
        Ok(LineItem {
            description: self.description,
            quantity: self.quantity,
            unit_price: self.unit_price,
            net_amount: net,
            sign: self.sign,
            period: self.period,
            tags: self.tags,
            vat: self.vat,
            allowance_charge: self.allowance_charge,
            metadata: self.metadata,
        })
    }
}

/// Replacing the first entry stored under `k` stores `v` there and leaves
/// every other key as it was.
proof fn lemma_meta_replace(before: Seq<(String, String)>, i: int, k: Seq<char>, after: Seq<(String, String)>)
    requires
        0 <= i < before.len(),
        before[i].0@ == k,
        forall|j: int| 0 <= j < i ==> (#[trigger] before[j]).0@ != k,
        after.len() == before.len(),
        after[i].0@ == k,
        forall|j: int| 0 <= j < before.len() && j != i ==> after[j] == before[j],
    ensures
        meta_lookup(after, k) == Some(after[i].1@),
        forall|other: Seq<char>| other != k ==> meta_lookup(after, other) == meta_lookup(before, other),
    decreases i,
{
    if i > 0 {
        lemma_meta_replace(before.drop_first(), i - 1, k, after.drop_first());
        assert(after[0] == before[0]);
        assert forall|other: Seq<char>| other != k implies meta_lookup(after, other) == meta_lookup(before, other) by {
            if after[0].0@ != other {
                assert(meta_lookup(after, other) == meta_lookup(after.drop_first(), other));
                assert(meta_lookup(before, other) == meta_lookup(before.drop_first(), other));
            }
        }
    } else {
        assert(after.drop_first() =~= before.drop_first());
        assert forall|other: Seq<char>| other != k implies meta_lookup(after, other) == meta_lookup(before, other) by {
            assert(meta_lookup(after, other) == meta_lookup(after.drop_first(), other));
            assert(meta_lookup(before, other) == meta_lookup(before.drop_first(), other));
        }
    }
}

/// Appending an entry for a key not yet stored stores it and leaves every other
/// key as it was.
proof fn lemma_meta_append(before: Seq<(String, String)>, k: Seq<char>, after: Seq<(String, String)>)
    requires
        forall|j: int| 0 <= j < before.len() ==> (#[trigger] before[j]).0@ != k,
        after.len() == before.len() + 1,
        after[before.len() as int].0@ == k,
        forall|j: int| 0 <= j < before.len() ==> after[j] == before[j],
    ensures
        meta_lookup(after, k) == Some(after[before.len() as int].1@),
        forall|other: Seq<char>| other != k ==> meta_lookup(after, other) == meta_lookup(before, other),
    decreases before.len(),
{
    if before.len() > 0 {
        lemma_meta_append(before.drop_first(), k, after.drop_first());
        assert(after[0] == before[0]);
        assert forall|other: Seq<char>| other != k implies meta_lookup(after, other) == meta_lookup(before, other) by {
            if after[0].0@ != other {
                assert(meta_lookup(after, other) == meta_lookup(after.drop_first(), other));
                assert(meta_lookup(before, other) == meta_lookup(before.drop_first(), other));
            }
        }
    } else {
        assert forall|other: Seq<char>| other != k implies meta_lookup(after, other) == meta_lookup(before, other) by {
            assert(meta_lookup(after, other) == meta_lookup(after.drop_first(), other));
            assert(after.drop_first().len() == 0);
            assert(meta_lookup(after.drop_first(), other) is None);
        }
    }
}

/// A copy of an optional text.
pub(crate) fn clone_text(t: &Option<String>) -> (r: Option<String>)
    ensures
        r == *t,
{
    match t {
        Some(s) => Some(s.clone()),
        None => None,
    }
}

/// A copy of a list of texts.
pub(crate) fn clone_texts(v: &Vec<String>) -> (r: Vec<String>)
    ensures
        r@ == v@,
{
    let mut r: Vec<String> = Vec::new();
    let mut i: usize = 0;
    while i < v.len()
        invariant
            i <= v.len(),
            r@ == v@.take(i as int),
        decreases v.len() - i,
    {
        r.push(v[i].clone());
        i = i + 1;
        assert(r@ =~= v@.take(i as int));
    }
    assert(v@.take(v.len() as int) =~= v@);
    r
}

/// A copy of key/value entries.
pub(crate) fn clone_entries(v: &Vec<(String, String)>) -> (r: Vec<(String, String)>)
    ensures
        r@ == v@,
{
    let mut r: Vec<(String, String)> = Vec::new();
    let mut i: usize = 0;
    while i < v.len()
        invariant
            i <= v.len(),
            r@ == v@.take(i as int),
        decreases v.len() - i,
    {
        let (k, x) = &v[i];
        r.push((k.clone(), x.clone()));
        i = i + 1;
        assert(r@ =~= v@.take(i as int));
    }
    assert(v@.take(v.len() as int) =~= v@);
    r
}

/// A copy of an optional quantity.
pub(crate) fn clone_quantity(q: &Option<Quantity>) -> (r: Option<Quantity>)
    ensures
        r == *q,
{
    match q {
        Some(q) => Some(Quantity { value: q.value, unit: q.unit.clone(), code: clone_text(&q.code) }),
        None => None,
    }
}

/// A copy of an optional unit price.
pub(crate) fn clone_price(p: &Option<UnitPrice>) -> (r: Option<UnitPrice>)
    ensures
        r == *p,
{
    match p {
        Some(p) => Some(UnitPrice {
            value: p.value,
            unit: p.unit.clone(),
            base_quantity: p.base_quantity,
            base_quantity_code: clone_text(&p.base_quantity_code),
            gross_price: p.gross_price,
            price_discount: p.price_discount,
        }),
        None => None,
    }
}

/// A copy of an optional period.
pub(crate) fn clone_period(p: &Option<Period>) -> (r: Option<Period>)
    ensures
        r == *p,
{
    match p {
        Some(p) => Some(Period { from: p.from.clone(), to: p.to.clone() }),
        None => None,
    }
}

/// A copy of an optional allowance/charge.
pub(crate) fn clone_allowance(a: &Option<AllowanceCharge>) -> (r: Option<AllowanceCharge>)
    ensures
        r == *a,
{
    match a {
        Some(a) => Some(AllowanceCharge { reason_code: clone_text(&a.reason_code), base_amount: a.base_amount, percentage: a.percentage }),
        None => None,
    }
}

/// A copy of a position.
pub(crate) fn clone_item(item: &LineItem) -> (r: LineItem)
    ensures
        r.description == item.description && r.quantity == item.quantity && r.unit_price == item.unit_price,
        r.net_amount == item.net_amount && r.sign == item.sign && r.period == item.period,
        r.tags@ == item.tags@ && r.vat == item.vat && r.allowance_charge == item.allowance_charge,
        r.metadata@ == item.metadata@,
{
    LineItem {
        description: item.description.clone(),
        quantity: clone_quantity(&item.quantity),
        unit_price: clone_price(&item.unit_price),
        net_amount: item.net_amount,
        sign: item.sign,
        period: clone_period(&item.period),
        tags: clone_texts(&item.tags),
        vat: item.vat,
        allowance_charge: clone_allowance(&item.allowance_charge),
        metadata: clone_entries(&item.metadata),
    }
}

} // verus!
