//! A tariff billing engine: fixed-point money, currencies, cash rounding, VAT
//! categories and pricing building blocks, with the arithmetic proved correct.
use vstd::prelude::*;

pub mod advance;
pub mod aggregation;
pub mod allocation;
pub mod assembly;
pub mod amount;
pub mod amount_text;
pub mod arith;
pub mod currency;
pub mod decimal;
pub mod document;
pub mod error;
pub mod line_item;
pub mod minimum;
pub mod lookup;
pub mod period;
pub mod quantity;
pub mod scale_check;
pub mod schedule;
pub mod settlement;
pub mod tags;
pub mod tariff;
pub mod tax;
pub mod text;
pub mod tou;
pub mod vat;

pub use advance::{residual_breakdown, AdvancePayment, DocumentKind, Prepayment};
pub use aggregation::{
    CountAggregator, LatestAggregator, MaxAggregator, SumAggregator, UniqueCountAggregator, UsageAggregator,
    WeightedSumAggregator,
};
pub use allocation::{proportional_split, AllocationRule, EqualAllocation, ProportionalAllocation};
pub use assembly::BillingDocumentBuilder;
pub use amount::{Amount, AmountScale, EuroAmount, InvoiceAmt, RoundingStrategy};
pub use currency::Currency;
pub use decimal::Decimal;
pub use document::{merge_breakdown, BillingDocument, BillingDocumentRepr, DocumentMeta};
pub use error::{BillingError, ParseAmountError};
pub use line_item::{AllowanceCharge, LineItem, LineItemBuilder, Sign};
pub use lookup::{RateLookup, RateLookupBuilder};
pub use minimum::minimum_charge;
pub use period::{merge_period_documents, prorate, prorate_amount, Period};
pub use quantity::{Quantity, UnitPrice};
pub use schedule::{TariffBand, TariffSchedule, TariffScheduleBuilder};
pub use settlement::CashRounding;
pub use tariff::{build_billable, AlwaysBills, AlwaysSettles, Billed, Billing, Positions, ScalarSettling, ScalarTariff, Tariff, TariffBilling};
pub use tax::{
    default_category, DiscountLayer, FixedDiscount, FixedRateTax, PerUnitLevy, PercentageCharge,
    PercentageDiscount, TaxLayer,
};
pub use tou::{DynamicPricing, DynamicPricingBuilder, TimeOfUsePricing, TimeOfUsePricingBuilder, TouBand};
pub use vat::{LineVat, TaxBreakdownEntry, TaxCategory};

verus! {

/// Reject an empty or whitespace-only unit label: `Err(InvalidInput)` exactly
/// when `unit` is blank.
pub fn check_unit(what: &str, unit: &str) -> (r: Result<(), BillingError>)
    ensures
        r is Err <==> crate::text::trim_spec(unit@).len() == 0,
        r matches Err(e) ==> e is InvalidInput,
        r matches Err(BillingError::InvalidInput { reason }) ==> reason@ == if what@.len() == 0 {
            "unit label must not be empty"@
        } else {
            what@ + " unit label must not be empty"@
        },
{
    if crate::text::is_blank(unit) {
        if crate::text::chars_of(what).len() == 0 {
            return Err(BillingError::InvalidInput { reason: crate::text::owned("unit label must not be empty") });
        }
        return Err(BillingError::InvalidInput {
            reason: crate::text::concat(what, " unit label must not be empty"),
        });
    }
    Ok(())
}

/// [`check_unit`] on an owned label that is moved into the built value.
pub fn validate_unit(unit: String) -> (r: Result<String, BillingError>)
    ensures
        r is Err <==> crate::text::trim_spec(unit@).len() == 0,
        r matches Err(e) ==> e is InvalidInput,
        r matches Ok(u) ==> u@ == unit@,
{
    check_unit("", unit.as_str())?;
    Ok(unit)
}

} // verus!
