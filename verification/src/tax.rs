//! Tax and discount layers: positions computed from the positions beneath
//! them.
use vstd::prelude::*;

use crate::amount::{raw_sum, rounded_raw, Amount, RoundingStrategy};
use crate::arith::fits_i64;
use crate::currency::Currency;
use crate::decimal::{decimal_product, decimal_sum, decimal_text, strip_zeros, Decimal};
use crate::error::BillingError;
use crate::line_item::{clone_text, signed_net, AllowanceCharge, LineItem, Sign};
use crate::quantity::{Quantity, UnitPrice};
use crate::text::{concat, is_blank, join3, lemma_trim_keeps, owned, trim_spec};
use crate::vat::{LineVat, TaxBreakdownEntry, TaxCategory};

verus! {

/// Whether `item` carries `tag`.
pub open spec fn item_has_tag(item: LineItem, tag: Seq<char>) -> bool {
    exists|i: int| 0 <= i < item.tags.len() && (#[trigger] item.tags[i])@ == tag
}

/// Whether `item` passes an optional tag filter.
pub open spec fn passes_tag(item: LineItem, tag: Option<String>) -> bool {
    match tag {
        None => true,
        Some(t) => item_has_tag(item, t@),
    }
}

/// Whether `item` is counted into a base: it passes the tag filter and, for
/// `debit_only`, is a debit.
pub open spec fn counted(item: LineItem, tag: Option<String>, debit_only: bool) -> bool {
    passes_tag(item, tag) && (!debit_only || item.sign == Sign::Debit)
}

/// The net amounts of the counted items, in order.
pub open spec fn counted_nets(items: Seq<LineItem>, tag: Option<String>, debit_only: bool) -> Seq<Amount<5>>
    decreases items.len(),
{
    if items.len() == 0 {
        Seq::empty()
    } else {
        let rest = counted_nets(items.drop_last(), tag, debit_only);
        if counted(items.last(), tag, debit_only) {
            rest.push(items.last().net_amount)
        } else {
            rest
        }
    }
}

/// Every running total of the counted net amounts fits `i64`.
pub open spec fn counted_sums_fit(items: Seq<LineItem>, tag: Option<String>, debit_only: bool) -> bool {
    forall|k: int| 0 <= k <= items.len() ==> fits_i64(#[trigger] raw_sum(counted_nets(items.take(k), tag, debit_only)))
}

/// `rate × 100` with trailing zeros stripped, or `None` where the product
/// cannot be formed.
pub open spec fn percent_parts(rate: Decimal) -> Option<(int, nat)> {
    match decimal_product(rate.m(), rate.s(), 100, 0) {
        None => None,
        Some((pm, ps)) => Some(strip_zeros(pm, ps)),
    }
}

/// `base × rate` rounded half away from zero to five places, or `None` where
/// the product cannot be formed.
pub open spec fn scaled_raw(base: int, rate: Decimal) -> Option<int> {
    match decimal_product(base, 5, rate.m(), rate.s()) {
        None => None,
        Some((pm, ps)) => Some(rounded_raw(pm, ps, 5, RoundingStrategy::MidpointAwayFromZero)),
    }
}

/// Sum the net amounts of the counted positions; `Err(MonetaryOverflow)`
/// when a running total leaves `i64`.
fn counted_total(positions: &[LineItem], tag: &Option<String>, debit_only: bool) -> (r: Result<
    Amount<5>,
    BillingError,
>)
    ensures
        r is Ok <==> counted_sums_fit(positions@, *tag, debit_only),
        r matches Ok(a) ==> a@ == raw_sum(counted_nets(positions@, *tag, debit_only)),
        r matches Err(e) ==> e is MonetaryOverflow,
{
    let mut acc = Amount::<5>::zero();
    let mut i: usize = 0;
    assert(positions@.take(0) =~= Seq::<LineItem>::empty());
    while i < positions.len()
        invariant
            i <= positions.len(),
            acc@ == raw_sum(counted_nets(positions@.take(i as int), *tag, debit_only)),
            forall|k: int| 0 <= k <= i ==> fits_i64(#[trigger] raw_sum(counted_nets(positions@.take(k), *tag, debit_only))),
        decreases positions.len() - i,
    {
        let p = &positions[i];
        let ghost prev = counted_nets(positions@.take(i as int), *tag, debit_only);
        assert(positions@.take(i as int + 1).drop_last() =~= positions@.take(i as int));
        assert(positions@.take(i as int + 1).last() == positions@[i as int]);
        let take = match tag {
            None => true,
            Some(t) => p.has_tag(t.as_str()),
        } && (!debit_only || p.is_debit());
        assert(take == counted(positions@[i as int], *tag, debit_only));
        if take {
            let ghost next = prev.push(p.net_amount);
            assert(counted_nets(positions@.take(i as int + 1), *tag, debit_only) == next);
            assert(next.drop_last() =~= prev);
            assert(raw_sum(next) == raw_sum(prev) + p.net_amount@);
            match acc.checked_add(p.net_amount) {
                Ok(s) => {
                    acc = s;
                },
                Err(e) => {
                    assert(!fits_i64(raw_sum(counted_nets(positions@.take(i as int + 1), *tag, debit_only))));
                    return Err(e);
                },
            }
        } else {
            assert(counted_nets(positions@.take(i as int + 1), *tag, debit_only) == prev);
        }
        i = i + 1;
    }
    assert(positions@.take(positions.len() as int) =~= positions@);
    Ok(acc)
}

/// `rate` as a percentage with trailing zeros stripped; `Err(InvalidInput)`
/// where the product cannot be formed.
fn rate_as_percent(rate: Decimal) -> (r: Result<Decimal, BillingError>)
    ensures
        match percent_parts(rate) {
            None => (r matches Err(e) && e is InvalidInput),
            Some(p) => r matches Ok(d) && (d.m(), d.s()) == p,
        },
{
    match rate.checked_mul(&Decimal::new(100, 0)) {
        Some(p) => Ok(p.normalize()),
        None => Err(BillingError::InvalidInput {
            reason: join3("rate ", rate.to_text().as_str(), " cannot be expressed as a percentage"),
        }),
    }
}

/// `name (text%)`-style label: `name`, `open`, `text`, `close`.
fn label(name: &str, open: &str, text: &str, close: &str) -> (r: String)
    ensures
        r@ == name@ + open@ + text@ + close@,
{
    let a = concat(name, open);
    let b = concat(a.as_str(), text);
    let c = concat(b.as_str(), close);
    c
}

/// A layer that computes a tax position from the positions beneath it.
pub trait TaxLayer {
    /// The layer's name, used in the generated description.
    fn name(&self) -> &str;

    /// What this layer answers for `positions`: each layer states it.
    spec fn computes(&self, positions: Seq<LineItem>, r: Result<LineItem, BillingError>) -> bool;

    /// Compute the tax position for `positions`.
    fn compute(&self, positions: &[LineItem]) -> (r: Result<LineItem, BillingError>)
        ensures
            self.computes(positions@, r),
    ;

    /// The VAT breakdown entry this layer contributes, if it is a VAT layer.
    fn breakdown(&self, positions: &[LineItem]) -> Result<Option<TaxBreakdownEntry>, BillingError> {
        Ok(None)
    }

    /// Whether `item` lies in the base this layer taxes; every position by
    /// default.
    fn covers(&self, item: &LineItem) -> bool {
        true
    }

    /// The VAT attribution of this layer's own position, where it is a
    /// charge that is itself subject to VAT; none by default.
    fn vat(&self) -> Option<LineVat> {
        None
    }

    /// The reason of this layer's own position as a document-level charge;
    /// none by default.
    fn allowance_charge(&self) -> Option<AllowanceCharge> {
        None
    }
}

/// A layer that computes a discount position from the positions beneath it.
pub trait DiscountLayer {
    /// The layer's name, used in the generated description.
    fn name(&self) -> &str;

    /// What this layer answers for `positions`: each layer states it.
    spec fn computes(&self, positions: Seq<LineItem>, r: Result<LineItem, BillingError>) -> bool;

    /// Compute the discount position for `positions`.
    fn compute(&self, positions: &[LineItem]) -> (r: Result<LineItem, BillingError>)
        ensures
            self.computes(positions@, r),
    ;

    /// The VAT attribution of the discount position; none by default.
    fn vat(&self) -> Option<LineVat> {
        None
    }

    /// The reason of the discount position as a document-level allowance;
    /// none by default.
    fn allowance_charge(&self) -> Option<AllowanceCharge> {
        None
    }
}

/// A flat percentage tax on the net amounts (optionally only of positions
/// with a tag), with its VAT category.
#[derive(Debug, Clone, PartialEq, Eq)]
pub struct FixedRateTax {
    name: String,
    rate: Decimal,
    require_tag: Option<String>,
    category: TaxCategory,
    exemption_reason: Option<String>,
}

impl FixedRateTax {
    /// The name.
    pub closed spec fn name_spec(&self) -> Seq<char> {
        self.name@
    }

    /// The rate, as a fraction.
    pub closed spec fn rate_spec(&self) -> Decimal {
        self.rate
    }

    /// The tag a position needs to be taxed.
    pub closed spec fn tag_spec(&self) -> Option<String> {
        self.require_tag
    }

    /// The VAT category.
    pub closed spec fn category_spec(&self) -> TaxCategory {
        self.category
    }

    /// The exemption reason.
    pub closed spec fn reason_spec(&self) -> Option<String> {
        self.exemption_reason
    }

    /// The category rules of the layer: a rate of zero where the category
    /// levies no tax, no exemption reason where the category forbids one.
    pub open spec fn category_ok(&self) -> bool {
        &&& !self.category_spec().carries_tax_spec() ==> self.rate_spec().m() == 0
        &&& self.category_spec().forbids_exemption_reason_spec() ==> self.reason_spec() is None
    }

    /// A standard-rated tax: `Err(InvalidInput)` exactly when `rate` is
    /// negative.
    pub fn new(name: &str, rate: Decimal) -> (r: Result<FixedRateTax, BillingError>)
        ensures
            r is Ok <==> rate.m() >= 0,
            r matches Ok(t) ==> t.name_spec() == name@ && t.rate_spec() == rate && t.tag_spec() is None
                && t.category_spec() == TaxCategory::Standard && t.reason_spec() is None,
            r matches Err(e) ==> e is InvalidInput,
    {
        if rate.is_negative() {
            return Err(BillingError::InvalidInput {
                reason: join3("FixedRateTax rate must be >= 0, got ", rate.to_text().as_str(), ""),
            });
        }
        Ok(FixedRateTax {
            name: owned(name),
            rate,
            require_tag: None,
            category: TaxCategory::Standard,
            exemption_reason: None,
        })
    }

    /// Set the VAT category.
    pub fn with_category(self, category: TaxCategory) -> (t: FixedRateTax)
        ensures
            t.category_spec() == category && t.name_spec() == self.name_spec() && t.rate_spec() == self.rate_spec(),
            t.tag_spec() == self.tag_spec() && t.reason_spec() == self.reason_spec(),
    {
        FixedRateTax { category, ..self }
    }

    /// Set the exemption reason text.
    pub fn with_exemption_reason(self, reason: &str) -> (t: FixedRateTax)
        ensures
            (t.reason_spec() matches Some(x) && x@ == reason@),
            t.category_spec() == self.category_spec() && t.name_spec() == self.name_spec(),
            t.rate_spec() == self.rate_spec() && t.tag_spec() == self.tag_spec(),
    {
        FixedRateTax { exemption_reason: Some(owned(reason)), ..self }
    }

    /// The VAT category.
    pub fn category(&self) -> (c: TaxCategory)
        ensures
            c == self.category_spec(),
    {
        self.category
    }

    /// The exemption reason text.
    pub fn exemption_reason(&self) -> (r: Option<&str>)
        ensures
            match self.reason_spec() {
                Some(x) => r matches Some(y) && y@ == x@,
                None => r is None,
            },
    {
        match &self.exemption_reason {
            Some(x) => Some(x.as_str()),
            None => None,
        }
    }

    /// The rate, as a fraction.
    pub fn rate(&self) -> (r: Decimal)
        ensures
            r == self.rate_spec(),
    {
        self.rate
    }

    /// The tag a position needs to be taxed.
    pub fn require_tag(&self) -> (r: Option<&str>)
        ensures
            match self.tag_spec() {
                Some(x) => r matches Some(y) && y@ == x@,
                None => r is None,
            },
    {
        match &self.require_tag {
            Some(x) => Some(x.as_str()),
            None => None,
        }
    }

    /// Tax only positions carrying `tag`.
    pub fn with_tag(self, tag: &str) -> (t: FixedRateTax)
        ensures
            (t.tag_spec() matches Some(x) && x@ == tag@),
            t.category_spec() == self.category_spec() && t.name_spec() == self.name_spec(),
            t.rate_spec() == self.rate_spec() && t.reason_spec() == self.reason_spec(),
    {
        FixedRateTax { require_tag: Some(owned(tag)), ..self }
    }

    fn check_category(&self) -> (r: Result<(), BillingError>)
        ensures
            r is Ok <==> self.category_ok(),
            r matches Err(e) ==> e is InvalidInput,
    {
        if !self.category.carries_tax() && !self.rate.is_zero() {
            let mut reason = join3("FixedRateTax category ", self.category.code(), " carries no tax, so the rate must be 0 (got ");
            reason.append(self.rate.to_text().as_str());
            reason.append(")");
            return Err(BillingError::InvalidInput { reason });
        }
        if self.category.forbids_exemption_reason() && self.exemption_reason.is_some() {
            return Err(BillingError::InvalidInput {
                reason: join3(
                    "FixedRateTax category ",
                    self.category.code(),
                    " must not carry an exemption reason (BT-120)",
                ),
            });
        }
        Ok(())
    }

    /// The base this layer taxes.
    fn taxable_base(&self, positions: &[LineItem]) -> (r: Result<Amount<5>, BillingError>)
        ensures
            r is Ok <==> counted_sums_fit(positions@, self.tag_spec(), false),
            r matches Ok(a) ==> a@ == raw_sum(counted_nets(positions@, self.tag_spec(), false)),
            r matches Err(e) ==> e is MonetaryOverflow,
    {
        counted_total(positions, &self.require_tag, false)
    }
}

impl TaxLayer for FixedRateTax {
    fn name(&self) -> (r: &str)
        ensures
            r@ == self.name_spec(),
    {
        self.name.as_str()
    }

    /// What `compute` answers for `positions`.
    open spec fn computes(&self, positions: Seq<LineItem>, r: Result<LineItem, BillingError>) -> bool {
        let base = raw_sum(counted_nets(positions, self.tag_spec(), false));
        &&& (r is Ok <==> self.category_ok() && counted_sums_fit(positions, self.tag_spec(), false) && (scaled_raw(
            base,
            self.rate_spec(),
        ) matches Some(x) && fits_i64(x)) && percent_parts(self.rate_spec()) is Some)
        &&& (!self.category_ok() ==> (r matches Err(e) && e is InvalidInput))
        &&& ((self.category_ok() && !counted_sums_fit(positions, self.tag_spec(), false)) ==> (r matches Err(
            e,
        ) && e is MonetaryOverflow))
        &&& ((self.category_ok() && counted_sums_fit(positions, self.tag_spec(), false) && !(scaled_raw(
            base,
            self.rate_spec(),
        ) matches Some(x) && fits_i64(x))) ==> (r matches Err(e) && e is MonetaryOverflow))
        &&& (r matches Ok(item) ==> {
            &&& self.category_ok() && counted_sums_fit(positions, self.tag_spec(), false)
            &&& scaled_raw(base, self.rate_spec()) == Some(item.net_amount@ as int)
            &&& item.sign == Sign::Debit
            &&& item.tags@.len() == 1 && item.tags@[0]@ == "tax"@
            &&& percent_parts(self.rate_spec()) matches Some((pm, ps)) && item.description@
                == self.name_spec() + " ("@ + decimal_text(pm, ps) + "%)"@
        })
        &&& (r matches Err(e) ==> (e is InvalidInput || e is MonetaryOverflow))
    }

    /// The tax position: `base × rate` rounded to five places, tagged `tax`,
    /// described as `name (rate%)`.
    fn compute(&self, positions: &[LineItem]) -> (r: Result<LineItem, BillingError>) {
        self.check_category()?;
        let base = self.taxable_base(positions)?;
        let tax = base.checked_mul_qty(self.rate)?;
        let pct = rate_as_percent(self.rate)?;
        let desc = label(self.name.as_str(), " (", pct.to_text().as_str(), "%)");
        proof {
            reveal_strlit(" (");
            lemma_trim_keeps(desc@, self.name@.len() as int + 1);
            reveal_strlit("tax");
        }
        let item = LineItem::debit(desc.as_str()).fixed_amount(tax).tag("tax").build();
        item
    }

    /// The VAT breakdown entry: the category and rate, the base and the tax,
    /// validated.
    fn breakdown(&self, positions: &[LineItem]) -> (r: Result<Option<TaxBreakdownEntry>, BillingError>)
        ensures
            !self.category_ok() ==> (r matches Err(e) && e is InvalidInput),
            r matches Ok(x) ==> x matches Some(entry) && {
                let base = raw_sum(counted_nets(positions@, self.tag_spec(), false));
                &&& entry.category == self.category_spec() && entry.rate == self.rate_spec()
                &&& entry.taxable_base@ == base
                &&& scaled_raw(base, self.rate_spec()) == Some(entry.tax_amount@ as int)
                &&& entry.exemption_reason == self.reason_spec() && entry.exemption_reason_code is None
                &&& entry.category_rules_ok()
            },
    {
        self.check_category()?;
        let base = self.taxable_base(positions)?;
        let tax = base.checked_mul_qty(self.rate)?;
        let mut entry = TaxBreakdownEntry::new(self.category, self.rate, base, tax);
        entry.exemption_reason = clone_text(&self.exemption_reason);
        entry.validate()?;
        Ok(Some(entry))
    }

    /// A position lies in the base when it passes the tag filter.
    fn covers(&self, item: &LineItem) -> (r: bool)
        ensures
            r == passes_tag(*item, self.tag_spec()),
    {
        match &self.require_tag {
            None => true,
            Some(t) => item.has_tag(t.as_str()),
        }
    }
}

/// A levy per unit of quantity on the debit positions measured in its unit.
#[derive(Debug, Clone, PartialEq, Eq)]
pub struct PerUnitLevy {
    name: String,
    rate: Amount<5>,
    unit: String,
    currency: Currency,
    require_tag: Option<String>,
}

/// Whether `item` is levied by a per-unit levy on `unit` with tag filter
/// `tag`: a debit that is not itself a tax, measured in `unit`, passing the
/// filter.
pub open spec fn levied(item: LineItem, unit: Seq<char>, tag: Option<String>) -> bool {
    &&& item.sign == Sign::Debit
    &&& !item_has_tag(item, "tax"@)
    &&& item.quantity matches Some(q) && q.unit@ == unit
    &&& passes_tag(item, tag)
}

/// The summed quantity of the positions of `items` a levy on `unit` with tag
/// filter `tag` counts ([`levied`]), as `rust_decimal` adds them from zero;
/// `None` once a sum cannot be formed.
pub open spec fn levied_total(items: Seq<LineItem>, unit: Seq<char>, tag: Option<String>) -> Option<(int, nat)>
    decreases items.len(),
{
    if items.len() == 0 {
        Some((0int, 0nat))
    } else {
        match levied_total(items.drop_last(), unit, tag) {
            None => None,
            Some((m, k)) => if levied(items.last(), unit, tag) {
                let q = items.last().quantity->0.value;
                decimal_sum(m, k, q.m(), q.s())
            } else {
                Some((m, k))
            },
        }
    }
}

/// A levy total that cannot be formed for a prefix cannot be formed for the
/// whole.
proof fn lemma_levied_none_extends(items: Seq<LineItem>, unit: Seq<char>, tag: Option<String>, k: int)
    requires
        0 <= k <= items.len(),
        levied_total(items.take(k), unit, tag) is None,
    ensures
        levied_total(items, unit, tag) is None,
    decreases items.len() - k,
{
    if k < items.len() {
        assert(items.take(k + 1).drop_last() =~= items.take(k));
        lemma_levied_none_extends(items, unit, tag, k + 1);
    } else {
        assert(items.take(k) =~= items);
    }
}

impl PerUnitLevy {
    /// The name.
    pub closed spec fn name_spec(&self) -> Seq<char> {
        self.name@
    }

    /// The rate per unit.
    pub closed spec fn rate_spec(&self) -> Amount<5> {
        self.rate
    }

    /// The unit levied.
    pub closed spec fn unit_spec(&self) -> Seq<char> {
        self.unit@
    }

    /// The currency of the rate.
    pub closed spec fn currency_spec(&self) -> Currency {
        self.currency
    }

    /// The tag a position needs to be levied.
    pub closed spec fn tag_spec(&self) -> Option<String> {
        self.require_tag
    }

    /// A levy of `rate` per `unit`: `Err(InvalidInput)` exactly when the rate
    /// is negative or the unit is blank. The currency starts unset (`XXX`).
    pub fn new(name: &str, rate: Amount<5>, unit: &str) -> (r: Result<PerUnitLevy, BillingError>)
        ensures
            r is Ok <==> (rate@ >= 0 && trim_spec(unit@).len() > 0),
            r matches Ok(l) ==> l.name_spec() == name@ && l.rate_spec() == rate && l.unit_spec() == unit@
                && l.currency_spec() == Currency::xxx_spec() && l.tag_spec() is None,
            r matches Err(e) ==> e is InvalidInput,
    {
        if rate.is_negative() {
            return Err(BillingError::InvalidInput {
                reason: join3("PerUnitLevy rate must be >= 0, got ", rate.to_string().as_str(), ""),
            });
        }
        if is_blank(unit) {
            return Err(BillingError::invalid_input("PerUnitLevy unit must not be empty"));
        }
        Ok(PerUnitLevy { name: owned(name), rate, unit: owned(unit), currency: Currency::xxx(), require_tag: None })
    }

    /// Set the currency of the rate.
    pub fn with_currency(self, currency: Currency) -> (l: PerUnitLevy)
        ensures
            l.currency_spec() == currency && l.name_spec() == self.name_spec() && l.rate_spec() == self.rate_spec(),
            l.unit_spec() == self.unit_spec() && l.tag_spec() == self.tag_spec(),
    {
        PerUnitLevy { currency, ..self }
    }

    /// Levy only positions carrying `tag`.
    pub fn with_tag(self, tag: &str) -> (l: PerUnitLevy)
        ensures
            (l.tag_spec() matches Some(x) && x@ == tag@),
            l.currency_spec() == self.currency_spec() && l.name_spec() == self.name_spec(),
            l.rate_spec() == self.rate_spec() && l.unit_spec() == self.unit_spec(),
    {
        PerUnitLevy { require_tag: Some(owned(tag)), ..self }
    }

    /// The rate per unit.
    pub fn rate(&self) -> (r: Amount<5>)
        ensures
            r == self.rate_spec(),
    {
        self.rate
    }

    /// The unit levied.
    pub fn unit(&self) -> (r: &str)
        ensures
            r@ == self.unit_spec(),
    {
        self.unit.as_str()
    }

    /// The currency of the rate.
    pub fn currency(&self) -> (r: Currency)
        ensures
            r == self.currency_spec(),
    {
        self.currency
    }
}

impl TaxLayer for PerUnitLevy {
    fn name(&self) -> (r: &str)
        ensures
            r@ == self.name_spec(),
    {
        self.name.as_str()
    }

    /// What `compute` answers for `positions`.
    open spec fn computes(&self, positions: Seq<LineItem>, r: Result<LineItem, BillingError>) -> bool {
        let total = levied_total(positions, self.unit_spec(), self.tag_spec());
        &&& (r is Ok <==> (total matches Some((tm, ts)) && tm >= 0 && trim_spec(self.unit_spec()).len() > 0 && (
        decimal_product(tm, ts, self.rate_spec()@ as int, 5) matches Some((pm, ps)) && fits_i64(
            rounded_raw(pm, ps, 5, RoundingStrategy::MidpointAwayFromZero),
        ))))
        &&& (total is None ==> (r matches Err(e) && e is MonetaryOverflow))
        &&& (r matches Ok(item) ==> {
            &&& total matches Some((tm, ts)) && item.quantity matches Some(q) && q.value.m() == tm && q.value.s() == ts
                && (decimal_product(tm, ts, self.rate_spec()@ as int, 5) matches Some((pm, ps)) && item.net_amount@
                == rounded_raw(pm, ps, 5, RoundingStrategy::MidpointAwayFromZero))
            &&& item.sign == Sign::Debit
            &&& item.quantity matches Some(q) && q.unit@ == self.unit_spec()
            &&& item.unit_price matches Some(p) && p.value.m() == self.rate_spec()@ && p.value.s() == 5
                && p.unit@ == self.currency_spec().code_spec() + "/"@ + self.unit_spec()
            &&& item.tags@.len() == 2 && item.tags@[0]@ == "tax"@ && item.tags@[1]@ == "levy"@
        })
        &&& (r matches Err(e) ==> (e is MonetaryOverflow || e is InvalidInput))
    }

    /// The levy position: the summed quantity of the levied positions at the
    /// rate, priced in `currency/unit`, tagged `tax` and `levy`.
    fn compute(&self, positions: &[LineItem]) -> (r: Result<LineItem, BillingError>) {
        let mut total = Decimal::zero();
        let mut i: usize = 0;
        proof {
            reveal_strlit("tax");
            assert(positions@.take(0) =~= Seq::<LineItem>::empty());
        }
        while i < positions.len()
            invariant
                i <= positions.len(),
                levied_total(positions@.take(i as int), self.unit@, self.require_tag) == Some((total.m(), total.s())),
            decreases positions.len() - i,
        {
            let p = &positions[i];
            assert(positions@.take(i as int + 1).drop_last() =~= positions@.take(i as int));
            assert(positions@.take(i as int + 1).last() == positions@[i as int]);
            let take = p.is_debit() && !p.has_tag("tax") && match &p.quantity {
                Some(q) => crate::text::str_eq(q.unit.as_str(), self.unit.as_str()),
                None => false,
            } && match &self.require_tag {
                None => true,
                Some(t) => p.has_tag(t.as_str()),
            };
            assert(take == levied(positions@[i as int], self.unit@, self.require_tag));
            if take {
                if let Some(q) = &p.quantity {
                    match total.checked_add(&q.value) {
                        Some(s) => {
                            total = s;
                        },
                        None => {
                            proof {
                                lemma_levied_none_extends(positions@, self.unit@, self.require_tag, i as int + 1);
                            }
                            return Err(BillingError::overflow(5, None));
                        },
                    }
                }
            }
            i = i + 1;
        }
        assert(positions@.take(positions.len() as int) =~= positions@);
        let price_unit = label(self.currency.code(), "/", self.unit.as_str(), "");
        let desc = label(self.name.as_str(), " (", self.rate.to_string().as_str(), "");
        let desc = label(desc.as_str(), "/", self.unit.as_str(), ")");
        proof {
            reveal_strlit(" (");
            reveal_strlit("/");
            reveal_strlit("");
            lemma_trim_keeps(desc@, self.name@.len() as int + 1);
            lemma_trim_keeps(price_unit@, price_unit@.len() - 1 - self.unit@.len());
            reveal_strlit("tax");
            reveal_strlit("levy");
        }
        LineItem::debit(desc.as_str()).quantity(Quantity::new(total, self.unit.as_str())).unit_price(
            UnitPrice::new(self.rate.into_decimal(), price_unit.as_str()),
        ).tag("tax").tag("levy").build()
    }
}

/// A percentage surcharge on the debit positions (optionally only those with a
/// tag), clamped to an optional minimum and maximum.
#[derive(Debug, Clone, PartialEq, Eq)]
pub struct PercentageCharge {
    name: String,
    rate: Decimal,
    apply_to_tag: Option<String>,
    min_amount: Option<Amount<5>>,
    max_amount: Option<Amount<5>>,
}

/// `x` clamped to an optional minimum, then to an optional maximum.
pub open spec fn clamped(x: int, min: Option<Amount<5>>, max: Option<Amount<5>>) -> int {
    let lo = match min {
        Some(m) => if x < m@ { m@ as int } else { x },
        None => x,
    };
    match max {
        Some(m) => if lo > m@ { m@ as int } else { lo },
        None => lo,
    }
}

impl PercentageCharge {
    /// The name.
    pub closed spec fn name_spec(&self) -> Seq<char> {
        self.name@
    }

    /// The rate, as a fraction.
    pub closed spec fn rate_spec(&self) -> Decimal {
        self.rate
    }

    /// The tag a position needs to be charged.
    pub closed spec fn tag_spec(&self) -> Option<String> {
        self.apply_to_tag
    }

    /// The minimum charge.
    pub closed spec fn min_spec(&self) -> Option<Amount<5>> {
        self.min_amount
    }

    /// The maximum charge.
    pub closed spec fn max_spec(&self) -> Option<Amount<5>> {
        self.max_amount
    }

    /// The minimum does not exceed the maximum.
    pub open spec fn bounds_ok(&self) -> bool {
        (self.min_spec() is Some && self.max_spec() is Some) ==> self.min_spec()->0@ <= self.max_spec()->0@
    }

    /// A percentage charge: `Err(InvalidInput)` exactly when `rate` is
    /// negative.
    pub fn new(name: &str, rate: Decimal) -> (r: Result<PercentageCharge, BillingError>)
        ensures
            r is Ok <==> rate.m() >= 0,
            r matches Ok(c) ==> c.name_spec() == name@ && c.rate_spec() == rate && c.tag_spec() is None
                && c.min_spec() is None && c.max_spec() is None,
            r matches Err(e) ==> e is InvalidInput,
    {
        if rate.is_negative() {
            return Err(BillingError::InvalidInput {
                reason: join3("PercentageCharge rate must be >= 0, got ", rate.to_text().as_str(), ""),
            });
        }
        Ok(PercentageCharge { name: owned(name), rate, apply_to_tag: None, min_amount: None, max_amount: None })
    }

    /// Charge only positions carrying `tag`.
    pub fn with_tag(self, tag: &str) -> (c: PercentageCharge)
        ensures
            (c.tag_spec() matches Some(x) && x@ == tag@),
            c.name_spec() == self.name_spec() && c.rate_spec() == self.rate_spec(),
            c.min_spec() == self.min_spec() && c.max_spec() == self.max_spec(),
    {
        PercentageCharge { apply_to_tag: Some(owned(tag)), ..self }
    }

    /// Charge at least `min`.
    pub fn with_min(self, min: Amount<5>) -> (c: PercentageCharge)
        ensures
            c.min_spec() == Some(min),
            c.name_spec() == self.name_spec() && c.rate_spec() == self.rate_spec(),
            c.tag_spec() == self.tag_spec() && c.max_spec() == self.max_spec(),
    {
        PercentageCharge { min_amount: Some(min), ..self }
    }

    /// Charge at most `max`.
    pub fn with_max(self, max: Amount<5>) -> (c: PercentageCharge)
        ensures
            c.max_spec() == Some(max),
            c.name_spec() == self.name_spec() && c.rate_spec() == self.rate_spec(),
            c.tag_spec() == self.tag_spec() && c.min_spec() == self.min_spec(),
    {
        PercentageCharge { max_amount: Some(max), ..self }
    }

    /// The rate, as a fraction.
    pub fn rate(&self) -> (r: Decimal)
        ensures
            r == self.rate_spec(),
    {
        self.rate
    }

    fn check_bounds(&self) -> (r: Result<(), BillingError>)
        ensures
            r is Ok <==> self.bounds_ok(),
            r matches Err(e) ==> e is InvalidInput,
    {
        if let (Some(min), Some(max)) = (self.min_amount, self.max_amount) {
            if min.to_raw() > max.to_raw() {
                return Err(BillingError::invalid_input("PercentageCharge: min_amount must not exceed max_amount"));
            }
        }
        Ok(())
    }
}

impl TaxLayer for PercentageCharge {
    fn name(&self) -> (r: &str)
        ensures
            r@ == self.name_spec(),
    {
        self.name.as_str()
    }

    /// What `compute` answers for `positions`.
    open spec fn computes(&self, positions: Seq<LineItem>, r: Result<LineItem, BillingError>) -> bool {
        let base = raw_sum(counted_nets(positions, self.tag_spec(), true));
        &&& (r is Ok <==> self.bounds_ok() && counted_sums_fit(positions, self.tag_spec(), true) && (scaled_raw(
            base,
            self.rate_spec(),
        ) matches Some(x) && fits_i64(x)) && percent_parts(self.rate_spec()) is Some)
        &&& (!self.bounds_ok() ==> (r matches Err(e) && e is InvalidInput))
        &&& ((self.bounds_ok() && !counted_sums_fit(positions, self.tag_spec(), true)) ==> (r matches Err(
            e,
        ) && e is MonetaryOverflow))
        &&& ((self.bounds_ok() && counted_sums_fit(positions, self.tag_spec(), true) && !(scaled_raw(
            base,
            self.rate_spec(),
        ) matches Some(x) && fits_i64(x))) ==> (r matches Err(e) && e is MonetaryOverflow))
        &&& (r matches Ok(item) ==> {
            &&& self.bounds_ok() && counted_sums_fit(positions, self.tag_spec(), true)
            &&& scaled_raw(base, self.rate_spec()) matches Some(x) && item.net_amount@ == clamped(
                x,
                self.min_spec(),
                self.max_spec(),
            )
            &&& item.sign == Sign::Debit
            &&& item.tags@.len() == 1 && item.tags@[0]@ == "percentage-charge"@
        })
        &&& (r matches Err(e) ==> (e is InvalidInput || e is MonetaryOverflow))
    }

    /// The charge position: the debit base (tag-filtered) times the rate,
    /// rounded to five places and clamped to the bounds, tagged
    /// `percentage-charge`.
    fn compute(&self, positions: &[LineItem]) -> (r: Result<LineItem, BillingError>) {
        self.check_bounds()?;
        let base = counted_total(positions, &self.apply_to_tag, true)?;
        let mut charge = base.checked_mul_qty(self.rate)?;
        if let Some(min) = self.min_amount {
            if charge.to_raw() < min.to_raw() {
                charge = min;
            }
        }
        if let Some(max) = self.max_amount {
            if charge.to_raw() > max.to_raw() {
                charge = max;
            }
        }
        let pct = rate_as_percent(self.rate)?;
        let desc = label(self.name.as_str(), " (", pct.to_text().as_str(), "%)");
        proof {
            reveal_strlit(" (");
            lemma_trim_keeps(desc@, self.name@.len() as int + 1);
            reveal_strlit("percentage-charge");
        }
        LineItem::debit(desc.as_str()).fixed_amount(charge).tag("percentage-charge").build()
    }
}

/// A percentage credit on the debit positions (optionally only those with a
/// tag).
#[derive(Debug, Clone, PartialEq, Eq)]
pub struct PercentageDiscount {
    name: String,
    rate: Decimal,
    apply_to_tag: Option<String>,
}

impl PercentageDiscount {
    /// The name.
    pub closed spec fn name_spec(&self) -> Seq<char> {
        self.name@
    }

    /// The rate, as a fraction.
    pub closed spec fn rate_spec(&self) -> Decimal {
        self.rate
    }

    /// The tag a position needs to be discounted.
    pub closed spec fn tag_spec(&self) -> Option<String> {
        self.apply_to_tag
    }

    /// A percentage discount: `Err(InvalidInput)` exactly when `rate` lies
    /// outside `[0, 1]`.
    pub fn new(name: &str, rate: Decimal) -> (r: Result<PercentageDiscount, BillingError>)
        ensures
            r is Ok <==> (rate.m() >= 0 && !Decimal::value_of(1, 0).less_than(rate)),
            r matches Ok(d) ==> d.name_spec() == name@ && d.rate_spec() == rate && d.tag_spec() is None,
            r matches Err(e) ==> e is InvalidInput,
    {
        let one = Decimal::one();
        proof {
            Decimal::lemma_value_of(one);
        }
        if rate.is_negative() || one.lt(&rate) {
            return Err(BillingError::InvalidInput {
                reason: join3("PercentageDiscount rate must be in [0, 1], got ", rate.to_text().as_str(), ""),
            });
        }
        Ok(PercentageDiscount { name: owned(name), rate, apply_to_tag: None })
    }

    /// Discount only positions carrying `tag`.
    pub fn with_tag(self, tag: &str) -> (d: PercentageDiscount)
        ensures
            (d.tag_spec() matches Some(x) && x@ == tag@),
            d.name_spec() == self.name_spec() && d.rate_spec() == self.rate_spec(),
    {
        PercentageDiscount { apply_to_tag: Some(owned(tag)), ..self }
    }

    /// The rate, as a fraction.
    pub fn rate(&self) -> (r: Decimal)
        ensures
            r == self.rate_spec(),
    {
        self.rate
    }
}

impl DiscountLayer for PercentageDiscount {
    fn name(&self) -> (r: &str)
        ensures
            r@ == self.name_spec(),
    {
        self.name.as_str()
    }

    /// What `compute` answers for `positions`.
    open spec fn computes(&self, positions: Seq<LineItem>, r: Result<LineItem, BillingError>) -> bool {
        let sum = raw_sum(counted_nets(positions, self.tag_spec(), true));
        let base = if sum < 0 { 0 } else { sum };
        &&& (r is Ok <==> counted_sums_fit(positions, self.tag_spec(), true) && (scaled_raw(base, self.rate_spec())
            matches Some(x) && fits_i64(x)) && percent_parts(self.rate_spec()) is Some)
        &&& (!counted_sums_fit(positions, self.tag_spec(), true) ==> (r matches Err(e) && e is MonetaryOverflow))
        &&& ((counted_sums_fit(positions, self.tag_spec(), true) && !(scaled_raw(base, self.rate_spec()) matches Some(
            x,
        ) && fits_i64(x))) ==> (r matches Err(e) && e is MonetaryOverflow))
        &&& (r matches Ok(item) ==> {
            &&& counted_sums_fit(positions, self.tag_spec(), true)
            &&& scaled_raw(base, self.rate_spec()) matches Some(x) && item.net_amount@ == signed_net(x, Sign::Credit)
            &&& item.sign == Sign::Credit
            &&& item.tags@.len() == 1 && item.tags@[0]@ == "discount"@
        })
        &&& (r matches Err(e) ==> (e is InvalidInput || e is MonetaryOverflow))
    }

    /// The discount position: a credit of the debit base (tag-filtered, never
    /// below zero) times the rate, tagged `discount`.
    fn compute(&self, positions: &[LineItem]) -> (r: Result<LineItem, BillingError>) {
        let base = counted_total(positions, &self.apply_to_tag, true)?;
        let base = if base.is_negative() {
            Amount::<5>::zero()
        } else {
            base
        };
        let discount = base.checked_mul_qty(self.rate)?;
        let pct = rate_as_percent(self.rate)?;
        let desc = label(self.name.as_str(), " (-", pct.to_text().as_str(), "%)");
        proof {
            reveal_strlit(" (-");
            lemma_trim_keeps(desc@, self.name@.len() as int + 1);
            reveal_strlit("discount");
        }
        LineItem::credit(desc.as_str()).fixed_amount(discount).tag("discount").build()
    }
}

/// A fixed credit.
#[derive(Debug, Clone, PartialEq, Eq)]
pub struct FixedDiscount {
    name: String,
    amount: Amount<5>,
}

impl FixedDiscount {
    /// The name.
    pub closed spec fn name_spec(&self) -> Seq<char> {
        self.name@
    }

    /// The amount credited.
    pub closed spec fn amount_spec(&self) -> Amount<5> {
        self.amount
    }

    /// A fixed discount: `Err(InvalidInput)` exactly when `amount` is negative.
    pub fn new(name: &str, amount: Amount<5>) -> (r: Result<FixedDiscount, BillingError>)
        ensures
            r is Ok <==> amount@ >= 0,
            r matches Ok(d) ==> d.name_spec() == name@ && d.amount_spec() == amount,
            r matches Err(e) ==> e is InvalidInput,
    {
        if amount.is_negative() {
            return Err(BillingError::InvalidInput {
                reason: join3(
                    "FixedDiscount amount must be >= 0 (it is applied as a credit), got ",
                    amount.to_string().as_str(),
                    "",
                ),
            });
        }
        Ok(FixedDiscount { name: owned(name), amount })
    }

    /// The amount credited.
    pub fn amount(&self) -> (r: Amount<5>)
        ensures
            r == self.amount_spec(),
    {
        self.amount
    }
}

impl DiscountLayer for FixedDiscount {
    fn name(&self) -> (r: &str)
        ensures
            r@ == self.name_spec(),
    {
        self.name.as_str()
    }

    /// What `compute` answers for `positions`.
    open spec fn computes(&self, positions: Seq<LineItem>, r: Result<LineItem, BillingError>) -> bool {
        &&& (r is Ok <==> trim_spec(self.name_spec()).len() > 0)
        &&& (r matches Ok(item) ==> item.net_amount@ == signed_net(self.amount_spec()@ as int, Sign::Credit)
            && item.sign == Sign::Credit && item.description@ == self.name_spec()
            && item.tags@.len() == 1 && item.tags@[0]@ == "discount"@)
        &&& (r matches Err(e) ==> e is InvalidInput)
    }

    /// The discount position: a credit of the amount, described by the name,
    /// tagged `discount`; `Err(InvalidInput)` exactly when the name is blank.
    fn compute(&self, positions: &[LineItem]) -> (r: Result<LineItem, BillingError>) {
        proof {
            reveal_strlit("discount");
        }
        LineItem::credit(self.name.as_str()).fixed_amount(self.amount).tag("discount").build()
    }
}

/// The tax category applied when none is configured: standard rate.
pub fn default_category() -> (c: TaxCategory)
    ensures
        c == TaxCategory::Standard,
{
    TaxCategory::Standard
}

} // verus!
