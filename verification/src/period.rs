//! Billing periods and proration.
use vstd::prelude::*;

use crate::advance::{sums_fit, Prepayment};
use crate::amount::{raw_sum, rounded_raw, Amount, RoundingStrategy};
use crate::arith::fits_i64;
use crate::decimal::{decimal_product, decimal_quotient, Decimal};
use crate::document::{merge_breakdown, merged_breakdown, nets, BillingDocument, DocumentParts};
use crate::error::BillingError;
use crate::line_item::{quantity_rounded, LineItem, Sign};
use crate::text::{concat, nat_text, owned, usize_text};

verus! {

/// A billing period, as two date labels.
#[derive(Debug, Clone, PartialEq, Eq, Hash)]
pub struct Period {
    /// Start of the period.
    pub from: String,
    /// End of the period.
    pub to: String,
}

impl Period {
    /// A period from two labels.
    pub fn new(from: &str, to: &str) -> (p: Period)
        ensures
            p.from@ == from@ && p.to@ == to@,
    {
        Period { from: owned(from), to: owned(to) }
    }

    /// A period from the display texts of two dates.
    pub fn from_display(from: String, to: String) -> (p: Period)
        ensures
            p.from@ == from@ && p.to@ == to@,
    {
        Period { from, to }
    }
}

/// The raw value `prorate_amount` produces for `amount × active / total`
/// rounded to five places, or `None` where `rust_decimal` cannot form the
/// fraction or the product.
pub open spec fn prorated_raw(amount: int, active: u32, total: u32, strategy: RoundingStrategy) -> Option<int> {
    match decimal_quotient(active as int, 0, total as int, 0) {
        None => None,
        Some((fm, fs)) => match decimal_product(amount, 5, fm, fs) {
            None => None,
            Some((pm, ps)) => Some(rounded_raw(pm, ps, 5, strategy)),
        },
    }
}

/// Prorate `amount` to `active_days / total_days`, rounded to five places.
///
/// `Err(ZeroPeriod)` when `total_days` is zero; `Err(InvalidInput)` when
/// `active_days` exceeds it; otherwise the prorated value, or
/// `Err(MonetaryOverflow)` where it cannot be formed or leaves `i64`.
pub fn prorate_amount(amount: Amount<5>, active_days: u32, total_days: u32, strategy: RoundingStrategy) -> (r:
    Result<Amount<5>, BillingError>)
    ensures
        total_days == 0 ==> r == Err::<Amount<5>, BillingError>(BillingError::ZeroPeriod),
        (total_days > 0 && active_days > total_days) ==> (r matches Err(e) && e is InvalidInput),
        (total_days > 0 && active_days <= total_days) ==> match prorated_raw(amount@ as int, active_days, total_days, strategy) {
            Some(x) => if crate::arith::fits_i64(x) {
                r matches Ok(a) && a@ == x
            } else {
                r == Err::<Amount<5>, BillingError>(BillingError::overflow_spec(5, None))
            },
            None => r == Err::<Amount<5>, BillingError>(BillingError::overflow_spec(5, None)),
        },
{
    if total_days == 0 {
        return Err(BillingError::ZeroPeriod);
    }
    if active_days > total_days {
        return Err(BillingError::invalid_input("active_days must not exceed total_days"));
    }
    let fraction = match Decimal::from_i64(active_days as i64).checked_div(&Decimal::from_i64(total_days as i64)) {
        Some(f) => f,
        None => {
            return Err(BillingError::overflow(5, None));
        },
    };
    let product = match amount.into_decimal().checked_mul(&fraction) {
        Some(p) => p,
        None => {
            return Err(BillingError::overflow(5, None));
        },
    };
    match Amount::<5>::from_decimal_rounded(product, strategy) {
        Ok(a) => Ok(a),
        Err(_) => Err(BillingError::overflow(5, None)),
    }
}

/// The description of a prorated position: `desc (prorated a/td)`.
pub open spec fn prorated_description(desc: Seq<char>, active: u32, total: u32) -> Seq<char> {
    desc + " (prorated "@ + nat_text(active as nat) + "/"@ + nat_text(total as nat) + "d)"@
}

/// Prorate a position to `active_days / total_days`: the net amount (and
/// an allowance base) is scaled and rounded once with `strategy`, the
/// quantity scaled alike, the period cleared, and the description marked.
///
/// `Err(ZeroPeriod)` when `total_days` is zero; `Err(InvalidInput)` when
/// `active_days` exceeds it; `Err(MonetaryOverflow)` where a value cannot be
/// formed or leaves `i64`.
pub fn prorate(item: &LineItem, active_days: u32, total_days: u32, strategy: RoundingStrategy) -> (r: Result<
    LineItem,
    BillingError,
>)
    ensures
        total_days == 0 ==> r == Err::<LineItem, BillingError>(BillingError::ZeroPeriod),
        (total_days > 0 && active_days > total_days) ==> (r matches Err(e) && e is InvalidInput),
        (total_days > 0 && active_days <= total_days && prorated_raw(item.net_amount@ as int, active_days, total_days, strategy)
            is None) ==> (r matches Err(e) && e is MonetaryOverflow),
        (total_days > 0 && active_days <= total_days) ==> (r is Ok <==> (decimal_quotient(active_days as int, 0, total_days as int, 0)
            matches Some((fm, fs)) && item.scales(Decimal::value_of(fm, fs), strategy))),
        r matches Ok(p) ==> {
            &&& total_days > 0 && active_days <= total_days
            &&& prorated_raw(item.net_amount@ as int, active_days, total_days, strategy) == Some(p.net_amount@ as int)
            &&& p.description@ == prorated_description(item.description@, active_days, total_days)
            &&& p.period is None && p.sign == item.sign && p.unit_price == item.unit_price
            &&& p.tags@ == item.tags@ && p.vat == item.vat && p.metadata@ == item.metadata@
            &&& (p.allowance_charge is None <==> item.allowance_charge is None)
            &&& (p.quantity is None <==> item.quantity is None)
            &&& p.quantity matches Some(q) ==> {
                &&& q.unit == item.quantity->0.unit
                &&& decimal_quotient(active_days as int, 0, total_days as int, 0) matches Some((fm, fs))
                    && decimal_product(item.quantity->0.value.m(), item.quantity->0.value.s(), fm, fs) matches Some((qm, qs))
                    && (q.value.m(), q.value.s()) == quantity_rounded(qm, qs)
            }
        },
        r matches Err(e) ==> (e is ZeroPeriod || e is InvalidInput || e is MonetaryOverflow),
{
    if total_days == 0 {
        return Err(BillingError::ZeroPeriod);
    }
    if active_days > total_days {
        return Err(BillingError::invalid_input("active_days must not exceed total_days"));
    }
    let fraction = match Decimal::from_i64(active_days as i64).checked_div(&Decimal::from_i64(total_days as i64)) {
        Some(f) => f,
        None => {
            return Err(BillingError::overflow(5, None));
        },
    };
    proof {
        Decimal::lemma_value_of(fraction);
    }
    let mut result = item.scaled(fraction, strategy)?;
    result.period = None;
    let a = concat(item.description.as_str(), " (prorated ");
    let b = concat(a.as_str(), usize_text(active_days as usize).as_str());
    let c = concat(b.as_str(), "/");
    let d = concat(c.as_str(), usize_text(total_days as usize).as_str());
    result.description = concat(d.as_str(), "d)");
    Ok(result)
}

/// `doc` carries itemised advances.
pub open spec fn has_advances(doc: BillingDocument) -> bool {
    doc.prepayment_spec() matches Prepayment::Itemised(v) && v@.len() > 0
}

/// Merge the documents of two adjacent periods: `doc_a`'s header, the
/// positions of `doc_a` then `doc_b`, summed totals, prepaid amounts and
/// rounding, and the merged breakdown; no tax is recomputed.
///
/// `Err(InvalidInput)` when either carries itemised advances or a
/// cash-rounding rule; `Err(CurrencyMismatch)` when the currencies differ;
/// otherwise `Ok` exactly when every sum fits `i64` and the breakdowns merge.
pub fn merge_period_documents(doc_a: BillingDocument, doc_b: BillingDocument) -> (r: Result<BillingDocument, BillingError>)
    ensures
        (has_advances(doc_a) || has_advances(doc_b)) ==> (r matches Err(e) && e is InvalidInput),
        (!has_advances(doc_a) && !has_advances(doc_b) && (doc_a.cash_rounding_spec() is Some
            || doc_b.cash_rounding_spec() is Some)) ==> (r matches Err(e) && e is InvalidInput),
        (!has_advances(doc_a) && !has_advances(doc_b) && doc_a.cash_rounding_spec() is None
            && doc_b.cash_rounding_spec() is None && doc_a.meta_spec().currency.bytes() != doc_b.meta_spec().currency.bytes())
            ==> r == Err::<BillingDocument, BillingError>(
            BillingError::CurrencyMismatch { left: doc_a.meta_spec().currency, right: doc_b.meta_spec().currency },
        ),
        (!has_advances(doc_a) && !has_advances(doc_b) && doc_a.cash_rounding_spec() is None
            && doc_b.cash_rounding_spec() is None && doc_a.meta_spec().currency.bytes() == doc_b.meta_spec().currency.bytes())
            ==> (r is Ok <==> merge_fits(doc_a, doc_b)),
        r matches Ok(m) ==> merged(m, doc_a, doc_b),
{
    if doc_a.advances().len() > 0 || doc_b.advances().len() > 0 {
        return Err(BillingError::invalid_input(
            "cannot merge documents carrying itemised advance payments: merge the underlying positions and settle advances once",
        ));
    }
    if doc_a.cash_rounding().is_some() || doc_b.cash_rounding().is_some() {
        return Err(BillingError::invalid_input(
            "cannot merge documents with a cash-rounding rule: merge first, then apply the rounding to the combined payable amount",
        ));
    }
    if !doc_a.currency().same_as(&doc_b.currency()) {
        return Err(BillingError::CurrencyMismatch { left: doc_a.currency(), right: doc_b.currency() });
    }
    let net = doc_a.net_total().checked_add(doc_b.net_total())?;
    let tax = doc_a.tax_total().checked_add(doc_b.tax_total())?;
    let gross = doc_a.gross_total().checked_add(doc_b.gross_total())?;
    let prepaid = doc_a.prepaid().checked_add(doc_b.prepaid())?;
    let rounding = doc_a.rounding().checked_add(doc_b.rounding())?;
    let ghost a = doc_a;
    let ghost b = doc_b;
    let (meta, mut net_a, mut tax_a, mut disc_a, mut bd_a) = doc_a.into_parts();
    let (_, mut net_b, mut tax_b, mut disc_b, mut bd_b) = doc_b.into_parts();
    net_a.append(&mut net_b);
    tax_a.append(&mut tax_b);
    disc_a.append(&mut disc_b);
    bd_a.append(&mut bd_b);
    let breakdown = merge_breakdown(bd_a)?;
    BillingDocument::from_raw(
        DocumentParts {
            meta,
            net_positions: net_a,
            tax_positions: tax_a,
            discount_positions: disc_a,
            net_total: net,
            tax_total: tax,
            gross_total: gross,
            tax_breakdown: breakdown,
            prepaid,
            rounding,
        },
    )
}

/// Every sum a merge forms fits `i64`, the breakdowns merge, and the
/// merged discounts' running totals fit.
pub open spec fn merge_fits(a: BillingDocument, b: BillingDocument) -> bool {
    &&& fits_i64(a.net_total_spec()@ + b.net_total_spec()@)
    &&& fits_i64(a.tax_total_spec()@ + b.tax_total_spec()@)
    &&& fits_i64(a.gross_total_spec()@ + b.gross_total_spec()@)
    &&& fits_i64(a.prepaid_spec()@ + b.prepaid_spec()@)
    &&& fits_i64(a.rounding_spec()@ + b.rounding_spec()@)
    &&& merged_breakdown(a.breakdown_spec() + b.breakdown_spec()) is Some
    &&& sums_fit(nets(a.discount_spec() + b.discount_spec()))
}

/// `m` merges `a` and `b`: `a`'s header; positions, tax positions and
/// discounts of `a` then `b`; each total, the prepaid amount and the rounding
/// summed; the breakdowns merged; no cash-rounding rule.
pub open spec fn merged(m: BillingDocument, a: BillingDocument, b: BillingDocument) -> bool {
    &&& m.meta_spec() == a.meta_spec()
    &&& m.net_spec() == a.net_spec() + b.net_spec()
    &&& m.tax_spec() == a.tax_spec() + b.tax_spec()
    &&& m.discount_spec() == a.discount_spec() + b.discount_spec()
    &&& m.net_total_spec()@ == a.net_total_spec()@ + b.net_total_spec()@
    &&& m.tax_total_spec()@ == a.tax_total_spec()@ + b.tax_total_spec()@
    &&& m.gross_total_spec()@ == a.gross_total_spec()@ + b.gross_total_spec()@
    &&& m.discount_total_spec()@ == raw_sum(nets(m.discount_spec()))
    &&& m.prepaid_spec()@ == a.prepaid_spec()@ + b.prepaid_spec()@
    &&& m.rounding_spec()@ == a.rounding_spec()@ + b.rounding_spec()@
    &&& Some(m.breakdown_spec()) == merged_breakdown(a.breakdown_spec() + b.breakdown_spec())
    &&& m.cash_rounding_spec() is None
}

} // verus!
