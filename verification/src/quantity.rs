//! [`Quantity`] and [`UnitPrice`] — value and unit-label pairs of a line item.
use vstd::prelude::*;

use crate::allocation::pair;
use crate::amount::RoundingStrategy;
use crate::decimal::{decimal_difference, decimal_quotient, round_dp_spec, Decimal};
use crate::error::BillingError;
use crate::text::{debug_quoted, join3, owned};
use vstd::string::StringExecFns;

verus! {

/// A measured quantity with its unit label.
#[derive(Debug, Clone, PartialEq, Eq)]
pub struct Quantity {
    /// The numeric value.
    pub value: Decimal,
    /// The unit label as written on the invoice.
    pub unit: String,
    /// The UN/ECE Recommendation 20 unit code, when known.
    pub code: Option<String>,
}

impl Quantity {
    /// A quantity without a unit code.
    pub fn new(value: Decimal, unit: &str) -> (q: Quantity)
        ensures
            q.value == value && q.unit@ == unit@ && q.code is None,
    {
        Quantity { value, unit: owned(unit), code: None }
    }

    /// Attach the unit code.
    pub fn with_code(self, code: &str) -> (q: Quantity)
        ensures
            q.value == self.value && q.unit@ == self.unit@,
            (q.code matches Some(c) && c@ == code@),
    {
        Quantity { code: Some(owned(code)), ..self }
    }
}

/// A net price per unit, with the optional price details of an invoice line.
#[derive(Debug, Clone, PartialEq, Eq)]
pub struct UnitPrice {
    /// The net price per base quantity.
    pub value: Decimal,
    /// The unit label, for example `EUR/kWh`.
    pub unit: String,
    /// The number of units the price applies to; one when absent.
    pub base_quantity: Option<Decimal>,
    /// The unit code of the base quantity.
    pub base_quantity_code: Option<String>,
    /// The gross price before the price discount.
    pub gross_price: Option<Decimal>,
    /// The discount subtracted from the gross price.
    pub price_discount: Option<Decimal>,
}

impl UnitPrice {
    /// Whether `gross − discount` can be formed for the price details held:
    /// `rust_decimal`'s `-` panics where it cannot.
    pub open spec fn net_formable(&self) -> bool {
        (self.gross_price is Some && self.price_discount is Some) ==> decimal_difference(
            self.gross_price->0.m(),
            self.gross_price->0.s(),
            self.price_discount->0.m(),
            self.price_discount->0.s(),
        ) is Some
    }

    /// The price-detail checks, in the order they are made: a gross price
    /// less its discount (zero when absent) must equal the net price; a
    /// discount needs a gross price; a base quantity must be above zero; a
    /// base-quantity code needs a base quantity.
    pub open spec fn price_rules_ok(&self) -> bool {
        &&& self.gross_price matches Some(g) ==> match self.price_discount {
            Some(d) => match decimal_difference(g.m(), g.s(), d.m(), d.s()) {
                Some((em, es)) => self.value.same_value(Decimal::value_of(em, es)),
                None => false,
            },
            None => self.value.same_value(g),
        }
        &&& (self.gross_price is None ==> self.price_discount is None)
        &&& self.base_quantity matches Some(b) ==> b.m() > 0
        &&& (self.base_quantity is None ==> self.base_quantity_code is None)
    }

    /// A plain net price.
    pub fn new(value: Decimal, unit: &str) -> (p: UnitPrice)
        ensures
            p.value == value && p.unit@ == unit@,
            p.base_quantity is None && p.base_quantity_code is None,
            p.gross_price is None && p.price_discount is None,
    {
        UnitPrice {
            value,
            unit: owned(unit),
            base_quantity: None,
            base_quantity_code: None,
            gross_price: None,
            price_discount: None,
        }
    }

    /// A net price derived as `gross − discount`, keeping both.
    pub fn discounted(gross: Decimal, discount: Decimal, unit: &str) -> (p: UnitPrice)
        requires
            decimal_difference(gross.m(), gross.s(), discount.m(), discount.s()) is Some,
        ensures
            Some(pair(p.value)) == decimal_difference(gross.m(), gross.s(), discount.m(), discount.s()),
            p.unit@ == unit@,
            p.gross_price == Some(gross) && p.price_discount == Some(discount),
            p.base_quantity is None && p.base_quantity_code is None,
    {
        let value = match gross.checked_sub(&discount) {
            Some(v) => v,
            None => gross,
        };
        UnitPrice {
            value,
            unit: owned(unit),
            base_quantity: None,
            base_quantity_code: None,
            gross_price: Some(gross),
            price_discount: Some(discount),
        }
    }

    /// [`UnitPrice::discounted`] where `gross − discount` can be formed;
    /// `None` where `rust_decimal` cannot form it.
    pub fn checked_discounted(gross: Decimal, discount: Decimal, unit: &str) -> (p: Option<UnitPrice>)
        ensures
            p is Some <==> decimal_difference(gross.m(), gross.s(), discount.m(), discount.s()) is Some,
            p matches Some(q) ==> Some(pair(q.value)) == decimal_difference(
                gross.m(),
                gross.s(),
                discount.m(),
                discount.s(),
            ) && q.unit@ == unit@ && q.gross_price == Some(gross) && q.price_discount == Some(discount),
    {
        match gross.checked_sub(&discount) {
            Some(_) => Some(UnitPrice::discounted(gross, discount, unit)),
            None => None,
        }
    }

    /// `d` rounded to `scale` places, the scale capped at the 28 places a
    /// `rust_decimal` value can carry.
    pub open spec fn rounded_part(d: Decimal, scale: nat, strategy: RoundingStrategy) -> (int, nat) {
        round_dp_spec(d.m(), d.s(), if scale < 28 { scale } else { 28 }, strategy)
    }

    /// The discount that the rounded net price is derived with: the rounded
    /// discount, or zero without one.
    pub open spec fn rounded_discount(self, scale: nat, strategy: RoundingStrategy) -> (int, nat) {
        match self.price_discount {
            Some(d) => Self::rounded_part(d, scale, strategy),
            None => (0, 0),
        }
    }

    /// Whether [`UnitPrice::rounded`] can re-derive the net price: without a
    /// gross price always; with one where `rust_decimal` can form the rounded
    /// gross minus the rounded discount.
    pub open spec fn rounding_defined(self, scale: nat, strategy: RoundingStrategy) -> bool {
        self.gross_price matches Some(g) ==> {
            let rg = Self::rounded_part(g, scale, strategy);
            let rd = self.rounded_discount(scale, strategy);
            decimal_difference(rg.0, rg.1, rd.0, rd.1) is Some
        }
    }

    /// What [`UnitPrice::rounded`] makes of `self`, given the price it returned.
    pub open spec fn rounded_from(self, p: UnitPrice, scale: nat, strategy: RoundingStrategy) -> bool {
        &&& p.unit == self.unit && p.base_quantity == self.base_quantity
        &&& p.base_quantity_code == self.base_quantity_code
        &&& match self.gross_price {
            Some(g) => p.gross_price matches Some(x) && pair(x) == Self::rounded_part(g, scale, strategy),
            None => p.gross_price is None,
        }
        &&& match self.price_discount {
            Some(d) => p.price_discount matches Some(x) && pair(x) == Self::rounded_part(d, scale, strategy),
            None => p.price_discount is None,
        }
        &&& match self.gross_price {
            Some(g) => {
                let rg = Self::rounded_part(g, scale, strategy);
                let rd = self.rounded_discount(scale, strategy);
                decimal_difference(rg.0, rg.1, rd.0, rd.1) == Some(pair(p.value))
            },
            None => pair(p.value) == Self::rounded_part(self.value, scale, strategy),
        }
    }

    /// Round the gross price and the discount to `scale` places (at most 28)
    /// and derive the net price again as their difference, so that
    /// `net = gross − discount` stays exact; without a gross price the net
    /// price itself is rounded.
    pub fn rounded(self, scale: u32, strategy: RoundingStrategy) -> (p: UnitPrice)
        requires
            self.rounding_defined(scale as nat, strategy),
        ensures
            self.rounded_from(p, scale as nat, strategy),
    {
        let scale: u32 = if scale < 28 { scale } else { 28 };
        let gross_price = match self.gross_price {
            Some(g) => Some(g.round_dp_with_strategy(scale, strategy)),
            None => None,
        };
        let price_discount = match self.price_discount {
            Some(d) => Some(d.round_dp_with_strategy(scale, strategy)),
            None => None,
        };
        let value = match gross_price {
            Some(gross) => {
                let discount = match price_discount {
                    Some(d) => d,
                    None => Decimal::zero(),
                };
                match gross.checked_sub(&discount) {
                    Some(v) => v,
                    None => gross,
                }
            },
            None => self.value.round_dp_with_strategy(scale, strategy),
        };
        UnitPrice { value, gross_price, price_discount, ..self }
    }

    /// [`UnitPrice::rounded`] where the net price can be re-derived; `None`
    /// where `rust_decimal` cannot form the rounded gross minus the rounded
    /// discount.
    pub fn checked_rounded(self, scale: u32, strategy: RoundingStrategy) -> (p: Option<UnitPrice>)
        ensures
            p is Some <==> self.rounding_defined(scale as nat, strategy),
            p matches Some(q) ==> self.rounded_from(q, scale as nat, strategy),
    {
        let capped: u32 = if scale < 28 { scale } else { 28 };
        let defined = match self.gross_price {
            Some(g) => {
                let rg = g.round_dp_with_strategy(capped, strategy);
                let rd = match self.price_discount {
                    Some(d) => d.round_dp_with_strategy(capped, strategy),
                    None => Decimal::zero(),
                };
                rg.checked_sub(&rd).is_some()
            },
            None => true,
        };
        if defined {
            Some(self.rounded(scale, strategy))
        } else {
            None
        }
    }

    /// State the price per `base_quantity` units.
    pub fn per(self, base_quantity: Decimal) -> (p: UnitPrice)
        ensures
            p == (UnitPrice { base_quantity: Some(base_quantity), ..self }),
    {
        UnitPrice { base_quantity: Some(base_quantity), ..self }
    }

    /// Attach the unit code of the base quantity.
    pub fn with_base_quantity_code(self, code: &str) -> (p: UnitPrice)
        ensures
            (p.base_quantity_code matches Some(c) && c@ == code@),
            p.value == self.value && p.unit == self.unit && p.base_quantity == self.base_quantity,
            p.gross_price == self.gross_price && p.price_discount == self.price_discount,
    {
        UnitPrice { base_quantity_code: Some(owned(code)), ..self }
    }

    /// The price of one unit: the value itself without a base quantity, the
    /// value divided by it with one (`MonetaryOverflow` where `rust_decimal`
    /// cannot form the quotient).
    pub fn per_unit_value(&self) -> (r: Result<Decimal, BillingError>)
        ensures
            self.base_quantity is None ==> r == Ok::<Decimal, BillingError>(self.value),
            self.base_quantity matches Some(b) ==> match decimal_quotient(self.value.m(), self.value.s(), b.m(), b.s()) {
                Some(q) => r matches Ok(v) && pair(v) == q,
                None => r == Err::<Decimal, BillingError>(BillingError::overflow_spec(5, None)),
            },
    {
        match &self.base_quantity {
            None => Ok(self.value),
            Some(b) => match self.value.checked_div(b) {
                Some(q) => Ok(q),
                None => Err(BillingError::overflow(5, None)),
            },
        }
    }

    /// Check the price details: `Err(InvalidInput)` exactly when
    /// [`UnitPrice::price_rules_ok`] fails.
    pub fn validate(&self) -> (r: Result<(), BillingError>)
        requires
            self.net_formable(),
        ensures
            r is Ok <==> self.price_rules_ok(),
            r matches Err(e) ==> e is InvalidInput,
    {
        match (&self.gross_price, &self.price_discount) {
            (Some(gross), discount) => {
                let expected = match discount {
                    Some(d) => match gross.checked_sub(d) {
                        Some(e) => e,
                        None => *gross,
                    },
                    None => *gross,
                };
                proof {
                    Decimal::lemma_value_of(expected);
                }
                if !self.value.value_eq(&expected) {
                    let shown = match discount {
                        Some(d) => *d,
                        None => Decimal::zero(),
                    };
                    let mut reason = join3("item gross price ", gross.to_text().as_str(), " (BT-148) less discount ");
                    reason.append(shown.to_text().as_str());
                    reason.append(" (BT-147) is ");
                    reason.append(expected.to_text().as_str());
                    reason.append(", but the item net price (BT-146) is ");
                    reason.append(self.value.to_text().as_str());
                    reason.append("; PEPPOL-EN16931-R046 requires exact equality");
                    return Err(BillingError::InvalidInput { reason });
                }
            },
            (None, Some(discount)) => {
                return Err(BillingError::InvalidInput {
                    reason: join3(
                        "item price discount ",
                        discount.to_text().as_str(),
                        " (BT-147) is set without an item gross price (BT-148); BT-147 is defined as the amount subtracted from BT-148",
                    ),
                });
            },
            (None, None) => {},
        }
        match (&self.base_quantity, &self.base_quantity_code) {
            (Some(b), _) => {
                if !Decimal::zero().lt(b) {
                    return Err(BillingError::InvalidInput {
                        reason: join3(
                            "item price base quantity ",
                            b.to_text().as_str(),
                            " (BT-149) must be above zero; PEPPOL-EN16931-R121",
                        ),
                    });
                }
            },
            (None, Some(code)) => {
                return Err(BillingError::InvalidInput {
                    reason: join3(
                        "item price base quantity unit code ",
                        debug_quoted(code.as_str()).as_str(),
                        " (BT-150) is set without a base quantity (BT-149), which it is an attribute of",
                    ),
                });
            },
            (None, None) => {},
        }
        Ok(())
    }

    /// [`UnitPrice::validate`] where `gross − discount` can be formed; `None`
    /// where `rust_decimal` cannot form it.
    pub fn checked_validate(&self) -> (r: Option<Result<(), BillingError>>)
        ensures
            r is Some <==> self.net_formable(),
            r matches Some(v) ==> (v is Ok <==> self.price_rules_ok()) && (v matches Err(e) ==> e is InvalidInput),
    {
        if let (Some(g), Some(d)) = (&self.gross_price, &self.price_discount) {
            if g.checked_sub(d).is_none() {
                return None;
            }
        }
        Some(self.validate())
    }
}

} // verus!
