//! Error types for the billing engine.
use vstd::prelude::*;

use crate::currency::Currency;
use crate::decimal::{decimal_text, Decimal};
use crate::text::{debug_quoted, debug_text, nat_text, owned, usize_text};
use vstd::string::StringExecFns;

verus! {

/// Error returned when parsing an [`crate::Amount`] from a string.
#[derive(Debug, Clone, PartialEq, Eq)]
pub struct ParseAmountError {
    /// The input string that could not be parsed.
    pub input: String,
}

impl ParseAmountError {
    /// The text of the error: `cannot parse amount: "<input>"`.
    pub fn message(&self) -> (r: String)
        ensures
            r@ == "cannot parse amount: "@ + debug_text(self.input@),
    {
        let mut s = owned("cannot parse amount: ");
        s.append(debug_quoted(self.input.as_str()).as_str());
        s
    }
}

/// All errors produced by the billing engine.
#[derive(Debug, Clone, PartialEq)]
pub enum BillingError {
    /// An arithmetic operation on an [`crate::Amount`] exceeded the `i64` range.
    MonetaryOverflow {
        /// The precision `P` of the overflowing `Amount<P>`.
        precision: u8,
        /// The input value that caused the overflow, when known.
        input_value: Option<Decimal>,
    },
    /// A decimal carries more non-zero fractional digits than the target precision.
    PrecisionLoss {
        /// The precision `P` of the target `Amount<P>`.
        precision: u8,
        /// The value that could not be represented exactly.
        input_value: Decimal,
    },
    /// Two values in different currencies were combined.
    CurrencyMismatch {
        /// The currency of the left operand.
        left: Currency,
        /// The currency of the right operand.
        right: Currency,
    },
    /// A tariff schedule was built or used incorrectly.
    InvalidSchedule {
        /// Human-readable explanation.
        reason: String,
    },
    /// A function argument was invalid.
    InvalidInput {
        /// Human-readable explanation.
        reason: String,
    },
    /// A document failed an arithmetic consistency check.
    ValidationFailed {
        /// Which consistency check failed.
        check: String,
        /// The value computed from positions.
        actual: String,
        /// The value stored in the totals field.
        expected: String,
    },
    /// Allocation shares do not sum to `1.0 ± 1e-9`.
    InvalidAllocationShares {
        /// The actual sum of the provided shares.
        sum: String,
    },
    /// A proration was asked for over a period of zero days.
    ZeroPeriod,
    /// A tax or discount layer failed.
    LayerError {
        /// Human-readable explanation from the layer implementation.
        reason: String,
    },
}

impl BillingError {
    /// An `InvalidInput` error with the given reason.
    pub fn invalid_input(reason: &str) -> (e: BillingError)
        ensures
            e is InvalidInput,
    {
        BillingError::InvalidInput { reason: reason.to_owned() }
    }

    /// A `LayerError` with the given reason.
    pub fn layer_error(reason: &str) -> (e: BillingError)
        ensures
            e is LayerError,
    {
        BillingError::LayerError { reason: reason.to_owned() }
    }

    /// The text of the error as it is shown to a person.
    pub open spec fn message_spec(self) -> Seq<char> {
        match self {
            BillingError::MonetaryOverflow { precision, input_value: Some(v) } => "monetary overflow: input "@
                + decimal_text(v.m(), v.s()) + " exceeds representable range for Amount<"@ + nat_text(
                precision as nat,
            ) + ">"@,
            BillingError::MonetaryOverflow { precision, input_value: None } =>
                "monetary overflow: amount exceeds representable range for Amount<"@ + nat_text(precision as nat)
                    + ">"@,
            BillingError::PrecisionLoss { precision, input_value } => "precision loss: "@ + decimal_text(
                input_value.m(),
                input_value.s(),
            ) + " has more decimal places than Amount<"@ + nat_text(precision as nat) + "> can hold"@,
            BillingError::CurrencyMismatch { left, right } => "currency mismatch: "@ + left.code_spec() + " vs "@
                + right.code_spec(),
            BillingError::InvalidSchedule { reason } => "invalid tariff schedule: "@ + reason@,
            BillingError::InvalidInput { reason } => "invalid input: "@ + reason@,
            BillingError::ValidationFailed { check, actual, expected } => "document validation failed ("@ + check@
                + "): expected "@ + expected@ + ", got "@ + actual@,
            BillingError::InvalidAllocationShares { sum } => "allocation shares must sum to 1.0 \u{00b1} 1e-9 (got "@
                + sum@ + ")"@,
            BillingError::ZeroPeriod => "proration requires total_days > 0"@,
            BillingError::LayerError { reason } => "tax or discount layer error: "@ + reason@,
        }
    }

    /// The text of the error as it is shown to a person.
    pub fn message(&self) -> (r: String)
        ensures
            r@ == self.message_spec(),
    {
        match self {
            BillingError::MonetaryOverflow { precision, input_value } => {
                let mut s = match input_value {
                    Some(v) => {
                        let mut t = owned("monetary overflow: input ");
                        t.append(v.to_text().as_str());
                        t.append(" exceeds representable range for Amount<");
                        t
                    },
                    None => owned("monetary overflow: amount exceeds representable range for Amount<"),
                };
                s.append(usize_text(*precision as usize).as_str());
                s.append(">");
                s
            },
            BillingError::PrecisionLoss { precision, input_value } => {
                let mut s = owned("precision loss: ");
                s.append(input_value.to_text().as_str());
                s.append(" has more decimal places than Amount<");
                s.append(usize_text(*precision as usize).as_str());
                s.append("> can hold");
                s
            },
            BillingError::CurrencyMismatch { left, right } => {
                let mut s = owned("currency mismatch: ");
                s.append(left.code());
                s.append(" vs ");
                s.append(right.code());
                s
            },
            BillingError::InvalidSchedule { reason } => {
                let mut s = owned("invalid tariff schedule: ");
                s.append(reason.as_str());
                s
            },
            BillingError::InvalidInput { reason } => {
                let mut s = owned("invalid input: ");
                s.append(reason.as_str());
                s
            },
            BillingError::ValidationFailed { check, actual, expected } => {
                let mut s = owned("document validation failed (");
                s.append(check.as_str());
                s.append("): expected ");
                s.append(expected.as_str());
                s.append(", got ");
                s.append(actual.as_str());
                s
            },
            BillingError::InvalidAllocationShares { sum } => {
                let mut s = owned("allocation shares must sum to 1.0 \u{00b1} 1e-9 (got ");
                s.append(sum.as_str());
                s.append(")");
                s
            },
            BillingError::ZeroPeriod => owned("proration requires total_days > 0"),
            BillingError::LayerError { reason } => {
                let mut s = owned("tax or discount layer error: ");
                s.append(reason.as_str());
                s
            },
        }
    }

    /// The `MonetaryOverflow` error at precision `precision`.
    pub open spec fn overflow_spec(precision: u8, input_value: Option<Decimal>) -> BillingError {
        BillingError::MonetaryOverflow { precision, input_value }
    }

    /// A `MonetaryOverflow` error at precision `precision`.
    pub fn overflow(precision: u8, input_value: Option<Decimal>) -> (e: BillingError)
        ensures
            e == (BillingError::MonetaryOverflow { precision, input_value }),
    {
        BillingError::MonetaryOverflow { precision, input_value }
    }
}

} // verus!
