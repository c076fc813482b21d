//! Time-of-use pricing (a price per named band) and dynamic pricing (a
//! price per interval, billed at the weighted average).
use vstd::prelude::*;

use crate::allocation::{decimal_total, pair};
use crate::amount::{raw_sum, rounded_raw, Amount, RoundingStrategy};
use crate::arith::fits_i64;
use crate::currency::Currency;
use crate::decimal::{decimal_product, decimal_quotient, Decimal};
use crate::error::BillingError;
use crate::line_item::{LineItem, Sign};
use crate::quantity::{Quantity, UnitPrice};
use crate::tags::{is_reserved, reserved, reserved_spec};
use crate::text::{concat, debug_quoted, is_blank, join3, join_all, lemma_trim_keeps, owned, str_eq, trim_spec};
use vstd::string::StringExecFns;

verus! {

/// A named time-of-use band and its price per unit.
#[derive(Debug, Clone)]
pub struct TouBand {
    /// The band name, used as the position tag.
    pub name: String,
    /// Price per unit.
    pub price: Amount<5>,
}

impl TouBand {
    /// A band.
    pub fn new(name: &str, price: Amount<5>) -> (b: TouBand)
        ensures
            b.name@ == name@ && b.price == price,
    {
        TouBand { name: owned(name), price }
    }
}

/// The bands form a valid pricing: at least one; every name not blank, not a
/// reserved tag, and not repeated; every price non-negative.
pub open spec fn tou_bands_ok(bands: Seq<TouBand>) -> bool {
    &&& bands.len() > 0
    &&& forall|i: int| 0 <= i < bands.len() ==> {
        &&& trim_spec((#[trigger] bands[i]).name@).len() > 0
        &&& !reserved_spec(bands[i].name@)
        &&& bands[i].price@ >= 0
    }
    &&& forall|i: int, j: int| 0 <= j < i < bands.len() ==> (#[trigger] bands[j]).name@ != (#[trigger] bands[i]).name@
}

/// The price of the first band named `name`.
pub open spec fn band_price(bands: Seq<TouBand>, name: Seq<char>) -> Option<Amount<5>>
    decreases bands.len(),
{
    if bands.len() == 0 {
        None
    } else if bands[0].name@ == name {
        Some(bands[0].price)
    } else {
        band_price(bands.drop_first(), name)
    }
}

/// A usage entry is refused as input: its quantity is negative or it names
/// no band.
pub open spec fn entry_invalid(bands: Seq<TouBand>, e: (&str, Decimal)) -> bool {
    e.1.m() < 0 || band_price(bands, e.0@) is None
}

/// A usage entry's position cannot be formed: its quantity is positive and
/// `quantity × price`, rounded half away from zero to five places, cannot be
/// formed or leaves `i64`.
pub open spec fn entry_overflows(bands: Seq<TouBand>, e: (&str, Decimal)) -> bool {
    &&& !entry_invalid(bands, e) && e.1.m() > 0
    &&& match decimal_product(e.1.m(), e.1.s(), band_price(bands, e.0@)->0@ as int, 5) {
        None => true,
        Some((pm, ps)) => !fits_i64(rounded_raw(pm, ps, 5, RoundingStrategy::MidpointAwayFromZero)),
    }
}

/// Every usage entry can be priced.
pub open spec fn usage_ok(bands: Seq<TouBand>, usage: Seq<(&str, Decimal)>) -> bool {
    forall|i: int| 0 <= i < usage.len() ==> !entry_invalid(bands, #[trigger] usage[i]) && !entry_overflows(bands, usage[i])
}

/// The first usage entry that cannot be priced is refused as input.
pub open spec fn first_failure_invalid(bands: Seq<TouBand>, usage: Seq<(&str, Decimal)>) -> bool {
    exists|i: int| 0 <= i < usage.len() && entry_invalid(bands, #[trigger] usage[i]) && usage_ok(bands, usage.take(i))
}

/// The usage entries with a positive quantity, in order.
pub open spec fn positive_usage(usage: Seq<(&str, Decimal)>) -> Seq<(&str, Decimal)>
    decreases usage.len(),
{
    if usage.len() == 0 {
        Seq::empty()
    } else {
        let rest = positive_usage(usage.drop_last());
        if usage.last().1.m() > 0 {
            rest.push(usage.last())
        } else {
            rest
        }
    }
}

/// Time-of-use pricing: a price per named band.
#[derive(Debug)]
pub struct TimeOfUsePricing {
    bands: Vec<TouBand>,
    unit: String,
    currency: Currency,
}

/// Builder for [`TimeOfUsePricing`].
#[derive(Debug, Clone)]
pub struct TimeOfUsePricingBuilder {
    bands: Vec<TouBand>,
    unit: String,
    currency: Currency,
}

impl Default for TimeOfUsePricingBuilder {
    fn default() -> (b: TimeOfUsePricingBuilder)
        ensures
            b.bands_spec().len() == 0 && b.unit_spec() == "units"@ && b.currency_spec() == Currency::xxx_spec(),
    {
        TimeOfUsePricingBuilder { bands: Vec::new(), unit: owned("units"), currency: Currency::xxx() }
    }
}

impl TimeOfUsePricingBuilder {
    /// The bands added so far.
    pub closed spec fn bands_spec(&self) -> Seq<TouBand> {
        self.bands@
    }

    /// The unit label.
    pub closed spec fn unit_spec(&self) -> Seq<char> {
        self.unit@
    }

    /// The currency.
    pub closed spec fn currency_spec(&self) -> Currency {
        self.currency
    }

    /// Add a band.
    pub fn band(self, band: TouBand) -> (b: TimeOfUsePricingBuilder)
        ensures
            b.bands_spec() == self.bands_spec().push(band),
            b.unit_spec() == self.unit_spec() && b.currency_spec() == self.currency_spec(),
    {
        let mut s = self;
        s.bands.push(band);
        s
    }

    /// Add several bands, in order.
    pub fn bands(self, bands: Vec<TouBand>) -> (b: TimeOfUsePricingBuilder)
        ensures
            b.bands_spec() == self.bands_spec() + bands@,
            b.unit_spec() == self.unit_spec() && b.currency_spec() == self.currency_spec(),
    {
        let mut s = self;
        let mut more = bands;
        s.bands.append(&mut more);
        s
    }

    /// Set the unit label.
    pub fn unit(self, unit: &str) -> (b: TimeOfUsePricingBuilder)
        ensures
            b.bands_spec() == self.bands_spec() && b.unit_spec() == unit@ && b.currency_spec() == self.currency_spec(),
    {
        TimeOfUsePricingBuilder { unit: owned(unit), ..self }
    }

    /// Set the currency.
    pub fn currency(self, currency: Currency) -> (b: TimeOfUsePricingBuilder)
        ensures
            b.bands_spec() == self.bands_spec() && b.unit_spec() == self.unit_spec() && b.currency_spec() == currency,
    {
        TimeOfUsePricingBuilder { currency, ..self }
    }

    /// Validate and build: `Err(InvalidInput)` exactly when the bands fail
    /// [`tou_bands_ok`] or the unit is blank.
    pub fn build(self) -> (r: Result<TimeOfUsePricing, BillingError>)
        ensures
            r is Ok <==> (tou_bands_ok(self.bands_spec()) && trim_spec(self.unit_spec()).len() > 0),
            r matches Ok(p) ==> p.bands_spec() == self.bands_spec() && p.unit_spec() == self.unit_spec()
                && p.currency_spec() == self.currency_spec(),
            r matches Err(e) ==> e is InvalidInput,
    {
        TimeOfUsePricing::assemble(self.bands, self.unit, self.currency)
    }
}

impl TimeOfUsePricing {
    #[verifier::type_invariant]
    spec fn well_formed(self) -> bool {
        tou_bands_ok(self.bands@) && trim_spec(self.unit@).len() > 0
    }

    /// The bands.
    pub closed spec fn bands_spec(&self) -> Seq<TouBand> {
        self.bands@
    }

    /// The unit label.
    pub closed spec fn unit_spec(&self) -> Seq<char> {
        self.unit@
    }

    /// The currency.
    pub closed spec fn currency_spec(&self) -> Currency {
        self.currency
    }

    /// A builder with no bands, unit `units` and the unset currency.
    pub fn builder() -> (b: TimeOfUsePricingBuilder)
        ensures
            b.bands_spec().len() == 0 && b.unit_spec() == "units"@ && b.currency_spec() == Currency::xxx_spec(),
    {
        TimeOfUsePricingBuilder::default()
    }

    fn assemble(bands: Vec<TouBand>, unit: String, currency: Currency) -> (r: Result<TimeOfUsePricing, BillingError>)
        ensures
            r is Ok <==> (tou_bands_ok(bands@) && trim_spec(unit@).len() > 0),
            r matches Ok(p) ==> p.bands_spec() == bands@ && p.unit_spec() == unit@ && p.currency_spec() == currency,
            r matches Err(e) ==> e is InvalidInput,
    {
        let n = bands.len();
        if n == 0 {
            return Err(BillingError::invalid_input("TimeOfUsePricing requires at least one band"));
        }
        let mut i: usize = 0;
        while i < n
            invariant
                i <= n,
                n == bands.len(),
                forall|k: int| 0 <= k < i ==> {
                    &&& trim_spec((#[trigger] bands@[k]).name@).len() > 0
                    &&& !reserved_spec(bands@[k].name@)
                    &&& bands@[k].price@ >= 0
                },
                forall|k: int, j: int| 0 <= j < k < i ==> (#[trigger] bands@[j]).name@ != (#[trigger] bands@[k]).name@,
            decreases n - i,
        {
            let b = &bands[i];
            if is_blank(b.name.as_str()) {
                return Err(BillingError::invalid_input("TimeOfUsePricing band name must not be empty"));
            }
            if is_reserved(b.name.as_str()) {
                let mut reason = join3(
                    "TimeOfUsePricing band name ",
                    debug_quoted(b.name.as_str()).as_str(),
                    " is reserved by the engine (reserved: ",
                );
                let all = reserved();
                reason.append(join_all(all.as_slice(), ", ").as_str());
                reason.append("); rename the band");
                return Err(BillingError::InvalidInput { reason });
            }
            if b.price.is_negative() {
                let mut reason = join3(
                    "TimeOfUsePricing band ",
                    debug_quoted(b.name.as_str()).as_str(),
                    " price must be >= 0, got ",
                );
                reason.append(b.price.to_string().as_str());
                return Err(BillingError::InvalidInput { reason });
            }
            let mut j: usize = 0;
            while j < i
                invariant
                    j <= i < n,
                    n == bands.len(),
                    forall|t: int| 0 <= t < j ==> (#[trigger] bands@[t]).name@ != bands@[i as int].name@,
                decreases i - j,
            {
                if str_eq(bands[j].name.as_str(), bands[i].name.as_str()) {
                    return Err(BillingError::InvalidInput {
                        reason: join3("TimeOfUsePricing duplicate band name ", debug_quoted(bands[i].name.as_str()).as_str(), ""),
                    });
                }
                j = j + 1;
            }
            i = i + 1;
        }
        let unit = crate::validate_unit(unit)?;
        Ok(TimeOfUsePricing { bands, unit, currency })
    }

    /// The band names, in order.
    pub fn band_names(&self) -> (r: Vec<&str>)
        ensures
            r.len() == self.bands_spec().len(),
            forall|i: int| 0 <= i < r.len() ==> (#[trigger] r@[i])@ == self.bands_spec()[i].name@,
    {
        let mut r: Vec<&str> = Vec::new();
        let mut i: usize = 0;
        while i < self.bands.len()
            invariant
                i <= self.bands.len(),
                r.len() == i,
                forall|k: int| 0 <= k < i ==> (#[trigger] r@[k])@ == self.bands@[k].name@,
            decreases self.bands.len() - i,
        {
            r.push(self.bands[i].name.as_str());
            i = i + 1;
        }
        r
    }

    /// The unit label.
    pub fn unit(&self) -> (r: &str)
        ensures
            r@ == self.unit_spec(),
    {
        self.unit.as_str()
    }

    /// The currency.
    pub fn currency(&self) -> (r: Currency)
        ensures
            r == self.currency_spec(),
    {
        self.currency
    }

    /// One debit position per usage entry with a positive quantity, priced at
    /// its band and tagged with the band name.
    ///
    /// Succeeds exactly when every entry can be priced ([`usage_ok`]). The
    /// entries are taken in order and the first that cannot be priced
    /// decides the error: `InvalidInput` when its quantity is negative or it
    /// names no band, `MonetaryOverflow` when its amount cannot be formed.
    pub fn calculate(&self, usage: &[(&str, Decimal)]) -> (r: Result<Vec<LineItem>, BillingError>)
        ensures
            r is Ok <==> usage_ok(self.bands_spec(), usage@),
            r matches Err(e) ==> (e is InvalidInput <==> first_failure_invalid(self.bands_spec(), usage@)),
            (exists|i: int| 0 <= i < usage@.len() && (#[trigger] usage@[i]).1.m() < 0) ==> r is Err,
            (exists|i: int| 0 <= i < usage@.len() && band_price(self.bands_spec(), (#[trigger] usage@[i]).0@) is None)
                ==> r is Err,
            r matches Ok(items) ==> {
                let pos = positive_usage(usage@);
                &&& items.len() == pos.len()
                &&& forall|i: int| 0 <= i < items.len() ==> {
                    &&& (#[trigger] items@[i]).sign == Sign::Debit
                    &&& items@[i].quantity matches Some(q) && q.value == pos[i].1 && q.unit@ == self.unit_spec()
                    &&& band_price(self.bands_spec(), pos[i].0@) matches Some(price)
                        && items@[i].unit_price matches Some(p) && p.value.m() == price@ && p.value.s() == 5
                        && p.unit@ == self.currency_spec().code_spec() + "/"@ + self.unit_spec()
                    &&& decimal_product(pos[i].1.m(), pos[i].1.s(), p_value(items@[i]).m(), p_value(items@[i]).s())
                        matches Some((pm, ps)) && items@[i].net_amount@ == rounded_raw(pm, ps, 5, RoundingStrategy::MidpointAwayFromZero)
                    &&& items@[i].tags@.len() == 1 && items@[i].tags@[0]@ == pos[i].0@
                }
            },
            r matches Err(e) ==> (e is InvalidInput || e is MonetaryOverflow),
    {
        proof {
            use_type_invariant(self);
        }
        let price_unit = concat(concat(self.currency.code(), "/").as_str(), self.unit.as_str());
        proof {
            reveal_strlit("/");
            self.currency.lemma_code_len();
            assert(price_unit@[3] == '/');
            lemma_trim_keeps(price_unit@, 3);
        }
        let mut items: Vec<LineItem> = Vec::new();
        let mut i: usize = 0;
        assert(usage@.take(0) =~= Seq::<(&str, Decimal)>::empty());
        while i < usage.len()
            invariant
                i <= usage.len(),
                tou_bands_ok(self.bands@),
                trim_spec(self.unit@).len() > 0,
                price_unit@ == self.currency.code_spec() + "/"@ + self.unit@,
                trim_spec(price_unit@).len() > 0,
                forall|k: int| 0 <= k < i ==> (#[trigger] usage@[k]).1.m() >= 0,
                forall|k: int| 0 <= k < i ==> band_price(self.bands@, (#[trigger] usage@[k]).0@) is Some,
                usage_ok(self.bands@, usage@.take(i as int)),
                ({
                    let pos = positive_usage(usage@.take(i as int));
                    &&& items.len() == pos.len()
                    &&& forall|k: int| 0 <= k < items.len() ==> {
                        &&& (#[trigger] items@[k]).sign == Sign::Debit
                        &&& items@[k].quantity matches Some(q) && q.value == pos[k].1 && q.unit@ == self.unit@
                        &&& band_price(self.bands@, pos[k].0@) matches Some(price)
                            && items@[k].unit_price matches Some(p) && p.value.m() == price@ && p.value.s() == 5
                            && p.unit@ == price_unit@
                        &&& decimal_product(pos[k].1.m(), pos[k].1.s(), p_value(items@[k]).m(), p_value(items@[k]).s())
                            matches Some((pm, ps)) && items@[k].net_amount@ == rounded_raw(pm, ps, 5, RoundingStrategy::MidpointAwayFromZero)
                        &&& items@[k].tags@.len() == 1 && items@[k].tags@[0]@ == pos[k].0@
                    }
                }),
            decreases usage.len() - i,
        {
            let (band_name, qty) = usage[i];
            assert(usage@.take(i as int + 1).drop_last() =~= usage@.take(i as int));
            assert(usage@.take(i as int + 1).last() == usage@[i as int]);
            let ghost prefix = usage@.take(i as int);
            if qty.is_negative() {
                proof {
                    lemma_invalid_first(self.bands@, usage@, i as int);
                }
                return Err(BillingError::invalid_input("TimeOfUsePricing: usage quantity must be non-negative"));
            }
            let price = match self.find_band(band_name) {
                Some(p) => p,
                None => {
                    proof {
                        lemma_invalid_first(self.bands@, usage@, i as int);
                    }
                    let mut reason = join3("TimeOfUsePricing: unknown band ", debug_quoted(band_name).as_str(), " (defined bands: ");
                    let names = self.band_names();
                    reason.append(join_all(names.as_slice(), ", ").as_str());
                    reason.append(")");
                    return Err(BillingError::InvalidInput { reason });
                },
            };
            if !qty.is_zero() {
                let desc = concat(concat(self.unit.as_str(), " (").as_str(), band_name);
                let desc = concat(desc.as_str(), ")");
                proof {
                    reveal_strlit(" (");
                    let u = trim_spec(self.unit@);
                    crate::text::lemma_trim_has(self.unit@);
                    let w = choose|w: int| 0 <= w < self.unit@.len() && !crate::text::is_unicode_whitespace(self.unit@[w]);
                    assert(desc@[w] == self.unit@[w]);
                    lemma_trim_keeps(desc@, w);
                }
                let item = match LineItem::debit(desc.as_str()).quantity(Quantity::new(qty, self.unit.as_str())).unit_price(
                    UnitPrice::new(price.into_decimal(), price_unit.as_str()),
                ).tag(band_name).build() {
                    Ok(item) => item,
                    Err(e) => {
                        proof {
                            assert(entry_overflows(self.bands@, usage@[i as int]));
                            lemma_overflow_first(self.bands@, usage@, i as int);
                        }
                        return Err(e);
                    },
                };
                items.push(item);
            }
            proof {
                assert(!entry_overflows(self.bands@, usage@[i as int]));
                lemma_usage_ok_extends(self.bands@, usage@, i as int);
            }
            i = i + 1;
        }
        assert(usage@.take(usage.len() as int) =~= usage@);
        Ok(items)
    }

    /// The price of the band named `name`.
    fn find_band(&self, name: &str) -> (r: Option<Amount<5>>)
        ensures
            r == band_price(self.bands_spec(), name@),
    {
        let mut i: usize = 0;
        assert(self.bands@.skip(0) =~= self.bands@);
        while i < self.bands.len()
            invariant
                i <= self.bands.len(),
                band_price(self.bands@, name@) == band_price(self.bands@.skip(i as int), name@),
            decreases self.bands.len() - i,
        {
            assert(self.bands@.skip(i as int).drop_first() =~= self.bands@.skip(i as int + 1));
            assert(self.bands@.skip(i as int)[0] == self.bands@[i as int]);
            if str_eq(self.bands[i].name.as_str(), name) {
                return Some(self.bands[i].price);
            }
            i = i + 1;
        }
        None
    }
}

/// The unit price value of a position (meaningful for usage positions).
pub open spec fn p_value(item: LineItem) -> Decimal {
    item.unit_price->0.value
}

/// Dynamic pricing: quantities at per-interval prices, billed as one position
/// at the weighted average price.
#[derive(Debug)]
pub struct DynamicPricing {
    intervals: Vec<(Decimal, Amount<5>)>,
    unit: String,
    currency: Currency,
}

/// Builder for [`DynamicPricing`].
#[derive(Debug, Clone)]
pub struct DynamicPricingBuilder {
    intervals: Vec<(Decimal, Amount<5>)>,
    unit: String,
    currency: Currency,
}

impl Default for DynamicPricingBuilder {
    fn default() -> (b: DynamicPricingBuilder)
        ensures
            b.intervals_spec().len() == 0 && b.unit_spec() == "units"@ && b.currency_spec() == Currency::xxx_spec(),
    {
        DynamicPricingBuilder { intervals: Vec::new(), unit: owned("units"), currency: Currency::xxx() }
    }
}

/// Every interval quantity is above zero.
pub open spec fn intervals_ok(intervals: Seq<(Decimal, Amount<5>)>) -> bool {
    &&& intervals.len() > 0
    &&& forall|i: int| 0 <= i < intervals.len() ==> (#[trigger] intervals[i]).0.m() > 0
}

/// The interval costs: each quantity times its price, rounded to five places
/// (`None` where one cannot be formed).
pub open spec fn interval_costs(intervals: Seq<(Decimal, Amount<5>)>) -> Option<Seq<int>>
    decreases intervals.len(),
{
    if intervals.len() == 0 {
        Some(Seq::empty())
    } else {
        match interval_costs(intervals.drop_last()) {
            None => None,
            Some(rest) => {
                let (q, p) = intervals.last();
                match decimal_product(p@ as int, 5, q.m(), q.s()) {
                    None => None,
                    Some((pm, ps)) => Some(rest.push(rounded_raw(pm, ps, 5, RoundingStrategy::MidpointAwayFromZero))),
                }
            },
        }
    }
}

/// The interval costs of a prefix are the prefix of the interval costs, and
/// a prefix whose costs cannot be formed spoils the whole.
proof fn lemma_costs_prefix(intervals: Seq<(Decimal, Amount<5>)>, k: int)
    requires
        0 <= k <= intervals.len(),
    ensures
        interval_costs(intervals.take(k)) is None ==> interval_costs(intervals) is None,
        interval_costs(intervals) matches Some(c) ==> interval_costs(intervals.take(k)) == Some(c.take(k)),
    decreases intervals.len() - k,
{
    if k == intervals.len() {
        assert(intervals.take(k) =~= intervals);
        if interval_costs(intervals) is Some {
            let c = interval_costs(intervals)->0;
            assert(c.take(k) =~= c) by {
                lemma_costs_len(intervals);
            }
        }
    } else {
        lemma_costs_prefix(intervals, k + 1);
        let t = intervals.take(k + 1);
        lemma_costs_len(t);
        lemma_costs_len(intervals);
        assert(t.drop_last() =~= intervals.take(k));
        if interval_costs(t) is Some {
            let c1 = interval_costs(t)->0;
            assert(c1.drop_last() =~= c1.take(k));
            if interval_costs(intervals) is Some {
                let c = interval_costs(intervals)->0;
                assert(c.take(k + 1).take(k) =~= c.take(k));
                assert(c1.take(k) =~= c.take(k));
            }
        }
    }
}

/// There is one cost per interval.
proof fn lemma_costs_len(intervals: Seq<(Decimal, Amount<5>)>)
    ensures
        interval_costs(intervals) matches Some(c) ==> c.len() == intervals.len(),
    decreases intervals.len(),
{
    if intervals.len() > 0 {
        lemma_costs_len(intervals.drop_last());
    }
}

/// Every step of [`DynamicPricing::calculate`] can be formed: the summed
/// quantity, each interval's cost (fitting `i64`), each running total of the
/// costs, and, where the quantity is not zero, the average price.
pub open spec fn dynamic_ok(intervals: Seq<(Decimal, Amount<5>)>) -> bool {
    let qtys = intervals.map_values(|iv: (Decimal, Amount<5>)| iv.0);
    &&& decimal_total(qtys) matches Some((qm, qs))
    &&& interval_costs(intervals) matches Some(costs)
    &&& forall|i: int| 0 <= i < costs.len() ==> fits_i64(#[trigger] costs[i])
    &&& forall|k: int| 0 < k <= costs.len() ==> fits_i64(int_sum(#[trigger] costs.take(k)))
    &&& (qm == 0 || decimal_quotient(int_sum(costs), 5, qm, qs) is Some)
}

/// The sum of a sequence of integers.
pub open spec fn int_sum(s: Seq<int>) -> int
    decreases s.len(),
{
    if s.len() == 0 {
        0
    } else {
        int_sum(s.drop_last()) + s.last()
    }
}

impl DynamicPricingBuilder {
    /// The intervals added so far.
    pub closed spec fn intervals_spec(&self) -> Seq<(Decimal, Amount<5>)> {
        self.intervals@
    }

    /// The unit label.
    pub closed spec fn unit_spec(&self) -> Seq<char> {
        self.unit@
    }

    /// The currency.
    pub closed spec fn currency_spec(&self) -> Currency {
        self.currency
    }

    /// Add an interval: `quantity` at `price`.
    pub fn interval(self, quantity: Decimal, price: Amount<5>) -> (b: DynamicPricingBuilder)
        ensures
            b.intervals_spec() == self.intervals_spec().push((quantity, price)),
            b.unit_spec() == self.unit_spec() && b.currency_spec() == self.currency_spec(),
    {
        let mut s = self;
        s.intervals.push((quantity, price));
        s
    }

    /// Add several intervals, in order.
    pub fn intervals(self, intervals: Vec<(Decimal, Amount<5>)>) -> (b: DynamicPricingBuilder)
        ensures
            b.intervals_spec() == self.intervals_spec() + intervals@,
            b.unit_spec() == self.unit_spec() && b.currency_spec() == self.currency_spec(),
    {
        let mut s = self;
        let mut more = intervals;
        s.intervals.append(&mut more);
        s
    }

    /// Set the unit label.
    pub fn unit(self, unit: &str) -> (b: DynamicPricingBuilder)
        ensures
            b.intervals_spec() == self.intervals_spec() && b.unit_spec() == unit@ && b.currency_spec()
                == self.currency_spec(),
    {
        DynamicPricingBuilder { unit: owned(unit), ..self }
    }

    /// Set the currency.
    pub fn currency(self, currency: Currency) -> (b: DynamicPricingBuilder)
        ensures
            b.intervals_spec() == self.intervals_spec() && b.unit_spec() == self.unit_spec() && b.currency_spec()
                == currency,
    {
        DynamicPricingBuilder { currency, ..self }
    }

    /// Validate and build: `Err(InvalidInput)` exactly when there is no
    /// interval, a quantity is not above zero, or the unit is blank.
    pub fn build(self) -> (r: Result<DynamicPricing, BillingError>)
        ensures
            r is Ok <==> (intervals_ok(self.intervals_spec()) && trim_spec(self.unit_spec()).len() > 0),
            r matches Ok(p) ==> p.intervals_spec() == self.intervals_spec() && p.unit_spec() == self.unit_spec()
                && p.currency_spec() == self.currency_spec(),
            r matches Err(e) ==> e is InvalidInput,
    {
        DynamicPricing::assemble(self.intervals, self.unit, self.currency)
    }
}

impl DynamicPricing {
    #[verifier::type_invariant]
    spec fn well_formed(self) -> bool {
        intervals_ok(self.intervals@) && trim_spec(self.unit@).len() > 0
    }

    /// The intervals.
    pub closed spec fn intervals_spec(&self) -> Seq<(Decimal, Amount<5>)> {
        self.intervals@
    }

    /// The unit label.
    pub closed spec fn unit_spec(&self) -> Seq<char> {
        self.unit@
    }

    /// The currency.
    pub closed spec fn currency_spec(&self) -> Currency {
        self.currency
    }

    /// A builder with no intervals, unit `units` and the unset currency.
    pub fn builder() -> (b: DynamicPricingBuilder)
        ensures
            b.intervals_spec().len() == 0 && b.unit_spec() == "units"@ && b.currency_spec() == Currency::xxx_spec(),
    {
        DynamicPricingBuilder::default()
    }

    fn assemble(intervals: Vec<(Decimal, Amount<5>)>, unit: String, currency: Currency) -> (r: Result<
        DynamicPricing,
        BillingError,
    >)
        ensures
            r is Ok <==> (intervals_ok(intervals@) && trim_spec(unit@).len() > 0),
            r matches Ok(p) ==> p.intervals_spec() == intervals@ && p.unit_spec() == unit@ && p.currency_spec() == currency,
            r matches Err(e) ==> e is InvalidInput,
    {
        let n = intervals.len();
        if n == 0 {
            return Err(BillingError::invalid_input("DynamicPricing requires at least one interval"));
        }
        let zero = Decimal::zero();
        let mut i: usize = 0;
        while i < n
            invariant
                i <= n,
                n == intervals.len(),
                zero.m() == 0 && zero.s() == 0,
                forall|k: int| 0 <= k < i ==> (#[trigger] intervals@[k]).0.m() > 0,
            decreases n - i,
        {
            if !zero.lt(&intervals[i].0) {
                return Err(BillingError::invalid_input("DynamicPricing interval quantity must be > 0"));
            }
            i = i + 1;
        }
        let unit = crate::validate_unit(unit)?;
        Ok(DynamicPricing { intervals, unit, currency })
    }

    /// The unit label.
    pub fn unit(&self) -> (r: &str)
        ensures
            r@ == self.unit_spec(),
    {
        self.unit.as_str()
    }

    /// The currency.
    pub fn currency(&self) -> (r: Currency)
        ensures
            r == self.currency_spec(),
    {
        self.currency
    }

    /// One debit position: the summed quantity, the summed interval costs as
    /// its fixed amount, and the weighted average price (total cost over
    /// total quantity).
    pub fn calculate(&self) -> (r: Result<LineItem, BillingError>)
        ensures
            r is Ok <==> dynamic_ok(self.intervals_spec()),
            r matches Ok(item) ==> {
                &&& interval_costs(self.intervals_spec()) matches Some(costs) && item.net_amount@ == int_sum(costs)
                &&& item.sign == Sign::Debit
                &&& item.quantity matches Some(q) && Some(pair(q.value)) == decimal_total(
                    self.intervals_spec().map_values(|iv: (Decimal, Amount<5>)| iv.0),
                ) && q.unit@ == self.unit_spec()
                &&& item.unit_price matches Some(p) && p.unit@ == self.currency_spec().code_spec() + "/"@
                    + self.unit_spec() + " (wtd avg)"@
            },
            r matches Err(e) ==> (e is MonetaryOverflow || e is InvalidInput),
    {
        proof {
            use_type_invariant(self);
        }
        let n = self.intervals.len();
        let mut total_qty = Decimal::zero();
        let mut total_net = Amount::<5>::zero();
        let ghost qtys = self.intervals@.map_values(|iv: (Decimal, Amount<5>)| iv.0);
        let mut i: usize = 0;
        assert(self.intervals@.take(0) =~= Seq::<(Decimal, Amount<5>)>::empty());
        assert(qtys.take(0) =~= Seq::<Decimal>::empty());
        while i < n
            invariant
                i <= n,
                n == self.intervals.len(),
                qtys == self.intervals@.map_values(|iv: (Decimal, Amount<5>)| iv.0),
                decimal_total(qtys.take(i as int)) == Some(pair(total_qty)),
                interval_costs(self.intervals@.take(i as int)) matches Some(costs) && total_net@ == int_sum(costs),
                interval_costs(self.intervals@.take(i as int)) matches Some(costs) && (forall|j: int| 0 <= j < costs.len()
                    ==> fits_i64(#[trigger] costs[j])) && (forall|k: int| 0 < k <= costs.len() ==> fits_i64(
                    int_sum(#[trigger] costs.take(k)),
                )),
            decreases n - i,
        {
            let (qty, price) = self.intervals[i];
            assert(qtys.take(i as int + 1).drop_last() =~= qtys.take(i as int));
            assert(self.intervals@.take(i as int + 1).drop_last() =~= self.intervals@.take(i as int));
            assert(self.intervals@.take(i as int + 1).last() == self.intervals@[i as int]);
            proof {
                lemma_costs_prefix(self.intervals@, i as int + 1);
                lemma_costs_len(self.intervals@.take(i as int));
            }
            match total_qty.checked_add(&qty) {
                Some(s) => {
                    total_qty = s;
                },
                None => {
                    proof {
                        crate::allocation::lemma_total_none_extends(qtys, i as int + 1);
                    }
                    return Err(BillingError::overflow(5, None));
                },
            }
            let ghost costs = interval_costs(self.intervals@.take(i as int))->0;
            let cost = match price.checked_mul_qty(qty) {
                Ok(c) => c,
                Err(e) => {
                    proof {
                        if dynamic_ok(self.intervals@) {
                            let all = interval_costs(self.intervals@)->0;
                            lemma_costs_len(self.intervals@);
                            assert(all.take(i as int + 1)[i as int] == all[i as int]);
                        }
                    }
                    return Err(e);
                },
            };
            let ghost next = costs.push(cost@ as int);
            assert(interval_costs(self.intervals@.take(i as int + 1)) == Some(next));
            total_net = match total_net.checked_add(cost) {
                Ok(t) => t,
                Err(e) => {
                    proof {
                        assert(next.drop_last() =~= costs);
                        assert(next.take(i as int + 1) =~= next);
                        if dynamic_ok(self.intervals@) {
                            let all = interval_costs(self.intervals@)->0;
                            lemma_costs_len(self.intervals@);
                            assert(all.take(i as int + 1) == next);
                        }
                    }
                    return Err(e);
                },
            };
            proof {
                assert(next.drop_last() =~= costs);
                assert forall|k: int| 0 < k <= next.len() implies fits_i64(int_sum(#[trigger] next.take(k))) by {
                    if k <= costs.len() {
                        assert(next.take(k) =~= costs.take(k));
                    } else {
                        assert(next.take(k) =~= next);
                    }
                }
                assert forall|j: int| 0 <= j < next.len() implies fits_i64(#[trigger] next[j]) by {
                    if j < costs.len() {
                        assert(next[j] == costs[j]);
                    }
                }
            }
            i = i + 1;
        }
        assert(self.intervals@.take(n as int) =~= self.intervals@);
        assert(qtys.take(n as int) =~= qtys);
        let avg = if total_qty.is_zero() {
            Decimal::zero()
        } else {
            match total_net.into_decimal().checked_div(&total_qty) {
                Some(a) => a,
                None => {
                    assert(!dynamic_ok(self.intervals@));
                    return Err(BillingError::overflow(5, None));
                },
            }
        };
        let price_unit = concat(concat(concat(self.currency.code(), "/").as_str(), self.unit.as_str()).as_str(), " (wtd avg)");
        let desc = concat(concat("Dynamic pricing (", self.unit.as_str()).as_str(), ")");
        proof {
            reveal_strlit("/");
            reveal_strlit("Dynamic pricing (");
            reveal_strlit(" (wtd avg)");
            lemma_trim_keeps(desc@, 0);
            self.currency.lemma_code_len();
            assert(price_unit@[3] == '/');
            lemma_trim_keeps(price_unit@, 3);
        }
        LineItem::debit(desc.as_str()).quantity(Quantity::new(total_qty, self.unit.as_str())).unit_price(
            UnitPrice::new(avg, price_unit.as_str()),
        ).fixed_amount(total_net).build()
    }
}

/// An entry that is refused, after entries that can all be priced, makes
/// the refusal the first failure, and the usage not priceable.
proof fn lemma_invalid_first(bands: Seq<TouBand>, usage: Seq<(&str, Decimal)>, i: int)
    requires
        0 <= i < usage.len(),
        usage_ok(bands, usage.take(i)),
        entry_invalid(bands, usage[i]),
    ensures
        first_failure_invalid(bands, usage),
        !usage_ok(bands, usage),
{
    assert(entry_invalid(bands, usage[i]));
}

/// An entry that overflows, after entries that can all be priced, makes the
/// first failure no refusal, and the usage not priceable.
proof fn lemma_overflow_first(bands: Seq<TouBand>, usage: Seq<(&str, Decimal)>, i: int)
    requires
        0 <= i < usage.len(),
        usage_ok(bands, usage.take(i)),
        entry_overflows(bands, usage[i]),
    ensures
        !first_failure_invalid(bands, usage),
        !usage_ok(bands, usage),
{
    assert(entry_overflows(bands, usage[i]));
    if first_failure_invalid(bands, usage) {
        let j = choose|j: int| 0 <= j < usage.len() && entry_invalid(bands, #[trigger] usage[j]) && usage_ok(bands, usage.take(j));
        if j < i {
            assert(usage.take(i)[j] == usage[j]);
        } else if j > i {
            assert(usage.take(j)[i] == usage[i]);
        }
    }
}

/// A priceable entry extends a priceable prefix.
proof fn lemma_usage_ok_extends(bands: Seq<TouBand>, usage: Seq<(&str, Decimal)>, i: int)
    requires
        0 <= i < usage.len(),
        usage_ok(bands, usage.take(i)),
        !entry_invalid(bands, usage[i]),
        !entry_overflows(bands, usage[i]),
    ensures
        usage_ok(bands, usage.take(i + 1)),
{
    assert forall|k: int| 0 <= k < i + 1 implies !entry_invalid(bands, #[trigger] usage.take(i + 1)[k]) && !entry_overflows(
        bands,
        usage.take(i + 1)[k],
    ) by {
        if k < i {
            assert(usage.take(i + 1)[k] == usage.take(i)[k]);
        }
    }
}

} // verus!
