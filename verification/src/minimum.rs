//! [`minimum_charge`] — the shortfall position of a guaranteed minimum spend.
use vstd::prelude::*;

use crate::amount::Amount;
use crate::arith::fits_i64;
use crate::document::BillingDocument;
use crate::error::BillingError;
use crate::line_item::{LineItem, Sign};
use crate::text::trim_spec;

verus! {

/// The shortfall position of a minimum spend: `Ok(None)` when the document's
/// net total reaches `minimum`; otherwise a debit of `minimum − net`, tagged
/// `minimum-charge`, described as `description`.
///
/// `Err(MonetaryOverflow)` where the shortfall leaves `i64`;
/// `Err(InvalidInput)` for a blank description.
pub fn minimum_charge(doc: &BillingDocument, minimum: Amount<5>, description: &str) -> (r: Result<
    Option<LineItem>,
    BillingError,
>)
    ensures
        doc.net_total_spec()@ >= minimum@ ==> r == Ok::<Option<LineItem>, BillingError>(None),
        doc.net_total_spec()@ < minimum@ ==> {
            let shortfall = minimum@ - doc.net_total_spec()@;
            &&& !fits_i64(shortfall) ==> (r matches Err(e) && e is MonetaryOverflow)
            &&& (fits_i64(shortfall) && trim_spec(description@).len() == 0) ==> (r matches Err(e) && e is InvalidInput)
            &&& (fits_i64(shortfall) && trim_spec(description@).len() > 0) ==> (r matches Ok(Some(item)) && {
                &&& item.net_amount@ == shortfall && item.sign == Sign::Debit
                &&& item.description@ == description@
                &&& item.tags@.len() == 1 && item.tags@[0]@ == "minimum-charge"@
                &&& item.quantity is None && item.unit_price is None && item.period is None
                &&& item.vat is None && item.allowance_charge is None && item.metadata@.len() == 0
            })
        },
{
    let net = doc.net_total();
    if net.to_raw() >= minimum.to_raw() {
        return Ok(None);
    }
    let shortfall = minimum.checked_sub(net)?;
    let item = LineItem::debit(description).fixed_amount(shortfall).tag("minimum-charge").build()?;
    Ok(Some(item))
}

} // verus!
