//! Tag values the engine assigns to generated positions to classify them.
//!
//! They are written by the built-in tax and discount layers and read back by
//! other layers, so caller-supplied labels that would land in this namespace
//! are rejected rather than silently changing how a document is priced.
use vstd::prelude::*;

use crate::text::str_eq;

verus! {

/// Applied to every position produced by a tax layer.
pub const TAX: &'static str = "tax";

/// Applied to a tax position whose layer contributed a VAT breakdown entry.
pub const VAT: &'static str = "vat";

/// Applied to per-unit levy positions, in addition to [`TAX`].
pub const LEVY: &'static str = "levy";

/// Applied to percentage-charge positions.
pub const PERCENTAGE_CHARGE: &'static str = "percentage-charge";

/// Applied to every position produced by a discount layer.
pub const DISCOUNT: &'static str = "discount";

/// Applied to a minimum-charge shortfall position.
pub const MINIMUM_CHARGE: &'static str = "minimum-charge";

/// `tag` is one of the engine's reserved tags.
pub open spec fn reserved_spec(tag: Seq<char>) -> bool {
    ||| tag == TAX@
    ||| tag == VAT@
    ||| tag == LEVY@
    ||| tag == PERCENTAGE_CHARGE@
    ||| tag == DISCOUNT@
    ||| tag == MINIMUM_CHARGE@
}

/// Every reserved tag, for diagnostics.
pub fn reserved() -> (r: Vec<&'static str>)
    ensures
        r@.len() == 6,
        r@[0]@ == TAX@,
        r@[1]@ == VAT@,
        r@[2]@ == LEVY@,
        r@[3]@ == PERCENTAGE_CHARGE@,
        r@[4]@ == DISCOUNT@,
        r@[5]@ == MINIMUM_CHARGE@,
{
    vec![TAX, VAT, LEVY, PERCENTAGE_CHARGE, DISCOUNT, MINIMUM_CHARGE]
}

/// Whether `tag` is reserved by the engine.
pub fn is_reserved(tag: &str) -> (r: bool)
    ensures
        r == reserved_spec(tag@),
{
    str_eq(tag, TAX) || str_eq(tag, VAT) || str_eq(tag, LEVY) || str_eq(tag, PERCENTAGE_CHARGE)
        || str_eq(tag, DISCOUNT) || str_eq(tag, MINIMUM_CHARGE)
}

} // verus!
