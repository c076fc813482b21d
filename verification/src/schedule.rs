//! [`TariffSchedule`] — graduated, volume, block and capacity pricing.
use vstd::prelude::*;

use crate::amount::{rounded_raw, Amount, RoundingStrategy};
use crate::arith::{fits_i64, lemma_at_scale_sign, lemma_difference_at, lemma_less_than_at};
use crate::decimal::{
    at_scale, ceil_spec, decimal_difference, decimal_fixed_text, decimal_product, decimal_quotient, decimal_text,
    difference_exact, pow10, Decimal, MAX_MANTISSA,
};
use crate::error::BillingError;
use crate::line_item::{LineItem, Sign};
use crate::quantity::{Quantity, UnitPrice};
use crate::text::{concat, lemma_trim_keeps, nat_text, owned, trim_spec, usize_text};

verus! {

/// A single pricing tier of a [`TariffSchedule`].
#[derive(Debug, Clone)]
pub struct TariffBand {
    /// Description used for the generated line item; `None` for the
    /// generated range text.
    pub description: Option<String>,
    /// Lower bound (exclusive); `None` starts the band at zero.
    pub lower: Option<Decimal>,
    /// Upper bound (inclusive); `None` is unlimited.
    pub upper: Option<Decimal>,
    /// Price per unit (per block in block mode).
    pub price: Amount<5>,
    /// Block size, for block mode only.
    pub block_size: Option<Decimal>,
}

impl TariffBand {
    /// Band from zero up to and including `upper`.
    pub fn up_to(upper: Decimal, price: Amount<5>) -> (b: TariffBand)
        ensures
            b.description is None && b.lower is None && b.upper == Some(upper),
            b.price == price && b.block_size is None,
    {
        TariffBand { description: None, lower: None, upper: Some(upper), price, block_size: None }
    }

    /// Band from `lower` (exclusive) upward, unlimited.
    pub fn over(lower: Decimal, price: Amount<5>) -> (b: TariffBand)
        ensures
            b.description is None && b.lower == Some(lower) && b.upper is None,
            b.price == price && b.block_size is None,
    {
        TariffBand { description: None, lower: Some(lower), upper: None, price, block_size: None }
    }

    /// Band from `lower` (exclusive) up to `upper` (inclusive).
    pub fn between(lower: Decimal, upper: Decimal, price: Amount<5>) -> (b: TariffBand)
        ensures
            b.description is None && b.lower == Some(lower) && b.upper == Some(upper),
            b.price == price && b.block_size is None,
    {
        TariffBand { description: None, lower: Some(lower), upper: Some(upper), price, block_size: None }
    }

    /// Block pricing: `price` per block of `block_size` units.
    pub fn block(block_size: Decimal, price: Amount<5>) -> (b: TariffBand)
        ensures
            b.description is None && b.lower is None && b.upper is None,
            b.price == price && b.block_size == Some(block_size),
    {
        TariffBand { description: None, lower: None, upper: None, price, block_size: Some(block_size) }
    }

    /// Free tier: the first `units` at zero price, described as
    /// `Free tier (first {units})`.
    pub fn free_up_to(units: Decimal) -> (b: TariffBand)
        ensures
            b.lower is None && b.upper == Some(units),
            b.price@ == 0 && b.block_size is None,
            b.description matches Some(d) && d@ == "Free tier (first "@ + crate::decimal::decimal_text(
                units.m(),
                units.s(),
            ) + ")"@,
    {
        let head = concat("Free tier (first ", units.to_text().as_str());
        let description = concat(head.as_str(), ")");
        TariffBand {
            description: Some(description),
            lower: None,
            upper: Some(units),
            price: Amount::zero(),
            block_size: None,
        }
    }

    /// Override the generated description.
    pub fn with_description(self, desc: &str) -> (b: TariffBand)
        ensures
            b.description matches Some(d) && d@ == desc@,
            b.lower == self.lower && b.upper == self.upper,
            b.price == self.price && b.block_size == self.block_size,
    {
        TariffBand { description: Some(owned(desc)), ..self }
    }
}

/// How a schedule bills.
#[derive(Debug, Clone, Copy, PartialEq, Eq, Structural)]
enum Mode {
    Graduated,
    Volume,
    Block,
    Capacity,
}

/// Whether a band passes the per-band checks of a schedule in block mode
/// (`block`) or another mode.
pub open spec fn band_ok(b: TariffBand, block: bool) -> bool {
    &&& b.price@ >= 0
    &&& b.lower matches Some(l) ==> l.m() >= 0
    &&& b.upper matches Some(u) ==> u.m() > 0
    &&& (b.lower is Some && b.upper is Some) ==> b.lower->0.less_than(b.upper->0)
    &&& b.block_size matches Some(bs) ==> bs.m() > 0
    &&& block ==> b.block_size is Some
    &&& !block ==> b.block_size is None
}

/// The lower bound band `i` must declare, if it declares one: zero for the
/// first band, the previous band's upper bound after that.
pub open spec fn expected_lower(bands: Seq<TariffBand>, i: int) -> Decimal {
    if i == 0 {
        Decimal::value_of(0, 0)
    } else {
        bands[i - 1].upper->0
    }
}

/// Adjacent bands meet: every band but the last is bounded above, and every
/// declared lower bound equals the previous upper bound (zero for the first).
pub open spec fn contiguous(bands: Seq<TariffBand>) -> bool {
    &&& forall|i: int| 0 <= i < bands.len() - 1 ==> (#[trigger] bands[i]).upper is Some
    &&& forall|i: int|
        0 <= i < bands.len() ==> ((#[trigger] bands[i]).lower matches Some(l) ==> l.same_value(
            expected_lower(bands, i),
        ))
}

/// Whether bands form a valid schedule in block mode (`block`) or another mode.
pub open spec fn schedule_valid(bands: Seq<TariffBand>, block: bool) -> bool {
    &&& bands.len() > 0
    &&& block ==> bands.len() == 1
    &&& forall|i: int| 0 <= i < bands.len() ==> band_ok(#[trigger] bands[i], block)
    &&& (bands.len() > 1 && !block) ==> contiguous(bands)
}

/// The price of the tier covering `q`, scanning from band `i`: the first band
/// bounded at or above `q` or unbounded, else the last band.
pub open spec fn tier_price_from(bands: Seq<TariffBand>, i: int, q: Decimal) -> Option<Amount<5>>
    decreases bands.len() - i,
{
    if i < 0 || i >= bands.len() {
        if bands.len() > 0 {
            Some(bands.last().price)
        } else {
            None
        }
    } else {
        match bands[i].upper {
            Some(u) => if !u.less_than(q) {
                Some(bands[i].price)
            } else {
                tier_price_from(bands, i + 1, q)
            },
            None => Some(bands[i].price),
        }
    }
}

/// Scanning from band `k`, the price found is that of band `i` when every
/// band from `k` before `i` is bounded below `q` and band `i` covers `q`.
proof fn lemma_tier_from(bands: Seq<TariffBand>, q: Decimal, k: int, i: int)
    requires
        0 <= k <= i < bands.len(),
        forall|j: int| k <= j < i ==> ((#[trigger] bands[j]).upper matches Some(u) && u.less_than(q)),
        bands[i].upper matches Some(u) ==> !u.less_than(q),
    ensures
        tier_price_from(bands, k, q) == Some(bands[i].price),
    decreases i - k,
{
    if k < i {
        assert((bands[k].upper matches Some(u) && u.less_than(q)));
        lemma_tier_from(bands, q, k + 1, i);
    }
}

/// The price of a quantity on a volume or capacity schedule is that of the
/// first band covering it: where every band before band `i` is bounded
/// below `q`, and band `i` is unbounded or bounded at or above `q`, the
/// price is band `i`'s.
pub proof fn lemma_tier_price_first_covering(bands: Seq<TariffBand>, q: Decimal, i: int)
    requires
        0 <= i < bands.len(),
        forall|j: int| 0 <= j < i ==> ((#[trigger] bands[j]).upper matches Some(u) && u.less_than(q)),
        bands[i].upper matches Some(u) ==> !u.less_than(q),
    ensures
        tier_price_from(bands, 0, q) == Some(bands[i].price),
{
    lemma_tier_from(bands, q, 0, i);
}

/// The upper bound of band `i` at scale `t`; zero before the first band.
pub open spec fn bound_at(bands: Seq<TariffBand>, i: int, t: nat) -> int {
    if i < 0 {
        0
    } else {
        at_scale(bands[i].upper->0, t)
    }
}

/// The part of a quantity `qt` (at scale `t`) that bands `0..=i` cover: up
/// to band `i`'s upper bound, all of it once a band is unbounded, none before
/// the first band.
pub open spec fn covered(bands: Seq<TariffBand>, i: int, qt: int, t: nat) -> int {
    if i < 0 {
        0
    } else {
        match bands[i].upper {
            Some(u) => if at_scale(u, t) < qt {
                at_scale(u, t)
            } else {
                qt
            },
            None => qt,
        }
    }
}

/// The share of `qt` that band `i` takes in a graduated split: the part
/// lying between its lower bound (the previous band's upper bound) and its
/// upper bound.
pub open spec fn tier_share(bands: Seq<TariffBand>, i: int, qt: int, t: nat) -> int {
    covered(bands, i, qt, t) - covered(bands, i - 1, qt, t)
}

/// `qt` reaches band `i`: it exceeds what the bands before cover.
pub open spec fn tier_reached(bands: Seq<TariffBand>, i: int, qt: int, t: nat) -> bool {
    covered(bands, i - 1, qt, t) < qt
}

/// Read at scale `t`, splitting `q` across `bands` is exact: `q` is
/// non-negative, every band but the last is bounded, the bounds are positive
/// and strictly increasing, and `q` and every bound have a mantissa of at
/// most 96 bits at scale `t`.
pub open spec fn tiers_exact(bands: Seq<TariffBand>, q: Decimal, t: nat) -> bool {
    &&& q.s() <= t && 0 <= at_scale(q, t) <= MAX_MANTISSA
    &&& forall|i: int| 0 <= i < bands.len() - 1 ==> (#[trigger] bands[i]).upper is Some
    &&& forall|i: int|
        0 <= i < bands.len() ==> ((#[trigger] bands[i]).upper matches Some(u) ==> u.s() <= t && 0 < at_scale(u, t)
            <= MAX_MANTISSA)
    &&& forall|i: int|
        0 < i < bands.len() ==> ((#[trigger] bands[i]).upper is Some ==> bound_at(bands, i - 1, t) < bound_at(
            bands,
            i,
            t,
        ))
}

/// The line of band `j` in a graduated split of `qt`, read at scale `t`:
/// `qt` reaches the band, the line's quantity is the band's share, its price
/// the band's price.
pub open spec fn tier_line(
    bands: Seq<TariffBand>,
    j: int,
    qt: int,
    t: nat,
    line: (Seq<char>, (int, nat), Amount<5>),
) -> bool {
    &&& tier_reached(bands, j, qt, t)
    &&& line.1.1 <= t
    &&& line.1.0 * pow10((t - line.1.1) as nat) == tier_share(bands, j, qt, t)
    &&& line.2 == bands[j].price
}

/// A graduated split of `q` after `tier` bands, read at scale `t`: what
/// remains is `q` less what those bands cover, `prev` is the last bound
/// passed while `q` still reaches further, and each band so far has its line.
pub open spec fn graduated_progress(
    bands: Seq<TariffBand>,
    q: Decimal,
    t: nat,
    tier: int,
    rem: Decimal,
    prev: Decimal,
    lines: Seq<(Seq<char>, (int, nat), Amount<5>)>,
) -> bool {
    let qt = at_scale(q, t);
    &&& rem.s() <= t && at_scale(rem, t) == qt - covered(bands, tier - 1, qt, t)
    &&& prev.s() <= t && (tier_reached(bands, tier, qt, t) ==> at_scale(prev, t) == bound_at(bands, tier - 1, t))
    &&& lines.len() == tier
    &&& forall|j: int| 0 <= j < tier ==> tier_line(bands, j, qt, t, #[trigger] lines[j])
}

/// The positions of a graduated split of `q`, read at scale `t`: band `j`
/// has a position exactly when `q` reaches it, and the `j`-th position
/// carries band `j`'s share of `q` at band `j`'s price.
pub open spec fn graduated_shares(bands: Seq<TariffBand>, q: Decimal, t: nat, items: Seq<LineItem>) -> bool {
    let qt = at_scale(q, t);
    &&& items.len() <= bands.len()
    &&& forall|j: int| 0 <= j < bands.len() ==> (j < items.len() <==> #[trigger] tier_reached(bands, j, qt, t))
    &&& forall|j: int|
        0 <= j < items.len() ==> {
            &&& (#[trigger] items[j]).quantity matches Some(x) && x.value.s() <= t && at_scale(x.value, t)
                == tier_share(bands, j, qt, t)
            &&& items[j].unit_price matches Some(p) && p.value.m() == bands[j].price@
        }
}

/// What the bands cover grows with the band index and never exceeds `qt`.
proof fn lemma_covered_mono(bands: Seq<TariffBand>, q: Decimal, t: nat, a: int, b: int)
    requires
        tiers_exact(bands, q, t),
        -1 <= a <= b < bands.len(),
    ensures
        0 <= covered(bands, a, at_scale(q, t), t) <= covered(bands, b, at_scale(q, t), t) <= at_scale(q, t),
    decreases b - a,
{
    let qt = at_scale(q, t);
    if a < b {
        lemma_covered_mono(bands, q, t, a, b - 1);
        if b > 0 {
            assert(bands[b - 1].upper is Some);
        }
        if bands[b].upper is Some {
            assert(bands[b].upper matches Some(u) && 0 < at_scale(u, t));
        }
    }
}

/// Before band `i` is passed, what the bands before it cover is their last
/// bound when `qt` reaches band `i`.
proof fn lemma_reached_bound(bands: Seq<TariffBand>, q: Decimal, t: nat, i: int)
    requires
        tiers_exact(bands, q, t),
        0 <= i < bands.len(),
        tier_reached(bands, i, at_scale(q, t), t),
    ensures
        covered(bands, i - 1, at_scale(q, t), t) == bound_at(bands, i - 1, t),
        0 <= bound_at(bands, i - 1, t) <= MAX_MANTISSA,
        bands[i].upper matches Some(u) ==> bound_at(bands, i - 1, t) < at_scale(u, t),
{
    if i > 0 {
        assert(bands[i - 1].upper is Some);
        assert(bands[i - 1].upper matches Some(u) && 0 < at_scale(u, t) <= MAX_MANTISSA);
    }
    if bands[i].upper is Some {
        assert(bands[i].upper matches Some(u) && 0 < at_scale(u, t));
    }
}

/// One band of a graduated split, read at scale `t`: the band takes the
/// smaller of what remains and its width (all that remains when it is
/// unbounded), which is its share, and the split moves on to the next band.
proof fn lemma_graduated_step(
    bands: Seq<TariffBand>,
    q: Decimal,
    t: nat,
    tier: int,
    rem: Decimal,
    prev: Decimal,
    cap: Decimal,
    qty: Decimal,
    rem2: Decimal,
    prev2: Decimal,
    lines: Seq<(Seq<char>, (int, nat), Amount<5>)>,
    lines2: Seq<(Seq<char>, (int, nat), Amount<5>)>,
)
    requires
        tiers_exact(bands, q, t),
        graduated_progress(bands, q, t, tier, rem, prev, lines),
        0 <= tier < bands.len(),
        rem.m() > 0,
        match bands[tier].upper {
            Some(u) => difference_exact(u, prev, cap) && prev2 == u,
            None => cap == rem && prev2 == prev,
        },
        qty == (if cap.less_than(rem) {
            cap
        } else {
            rem
        }),
        qty.m() > 0 ==> difference_exact(rem, qty, rem2) && lines2 == lines.push(lines2.last()) && lines2.last().1 == (
        qty.m(), qty.s()) && lines2.last().2 == bands[tier].price,
        qty.m() <= 0 ==> rem2 == rem && lines2 == lines,
    ensures
        qty.m() > 0,
        graduated_progress(bands, q, t, tier + 1, rem2, prev2, lines2),
{
    let qt = at_scale(q, t);
    lemma_at_scale_sign(rem, t);
    lemma_reached_bound(bands, q, t, tier);
    lemma_covered_mono(bands, q, t, tier - 1, tier);
    let p = bound_at(bands, tier - 1, t);
    assert(at_scale(rem, t) == qt - p);
    match bands[tier].upper {
        Some(u) => {
            assert(u.s() <= t && 0 < at_scale(u, t) <= MAX_MANTISSA);
            lemma_difference_at(u, prev, cap, t);
            lemma_less_than_at(cap, rem, t);
        },
        None => {
            lemma_less_than_at(rem, rem, t);
        },
    }
    assert(qty.s() <= t && at_scale(qty, t) == tier_share(bands, tier, qt, t));
    lemma_at_scale_sign(qty, t);
    lemma_difference_at(rem, qty, rem2, t);
    let line = lines2.last();
    assert(tier_line(bands, tier, qt, t, line));
    assert forall|j: int| 0 <= j < tier + 1 implies tier_line(bands, j, qt, t, #[trigger] lines2[j]) by {
        if j < tier {
            assert(lines2[j] == lines[j]);
        }
    }
    if bands[tier].upper is Some {
        assert(bands[tier].upper matches Some(u) && at_scale(prev2, t) == at_scale(u, t));
    }
}

/// When a graduated split stops, read at scale `t`, band `j` has a line
/// exactly when `q` reaches it.
proof fn lemma_graduated_end(
    bands: Seq<TariffBand>,
    q: Decimal,
    t: nat,
    tier: int,
    rem: Decimal,
    prev: Decimal,
    lines: Seq<(Seq<char>, (int, nat), Amount<5>)>,
)
    requires
        tiers_exact(bands, q, t),
        graduated_progress(bands, q, t, tier, rem, prev, lines),
        0 <= tier <= bands.len(),
        tier == bands.len() || rem.m() <= 0,
    ensures
        forall|j: int|
            0 <= j < bands.len() ==> (j < lines.len() <==> #[trigger] tier_reached(bands, j, at_scale(q, t), t)),
{
    let qt = at_scale(q, t);
    assert forall|j: int| 0 <= j < bands.len() implies (j < lines.len() <==> #[trigger] tier_reached(bands, j, qt, t)) by {
        if j < tier {
            assert(tier_line(bands, j, qt, t, lines[j]));
        } else {
            lemma_at_scale_sign(rem, t);
            lemma_covered_mono(bands, q, t, tier - 1, j - 1);
        }
    }
}

/// Tariff schedule with four billing modes.
#[derive(Debug, Clone)]
pub struct TariffSchedule {
    mode: Mode,
    bands: Vec<TariffBand>,
    unit: String,
}

/// Builder for [`TariffSchedule`].
pub struct TariffScheduleBuilder {
    mode: Mode,
    bands: Vec<TariffBand>,
    unit: String,
}

impl TariffSchedule {
    /// The bands.
    pub closed spec fn bands_spec(&self) -> Seq<TariffBand> {
        self.bands@
    }

    /// The unit label.
    pub closed spec fn unit_spec(&self) -> Seq<char> {
        self.unit@
    }

    /// Whether this is a graduated schedule.
    pub closed spec fn is_graduated(&self) -> bool {
        self.mode == Mode::Graduated
    }

    /// Whether this is a volume schedule.
    pub closed spec fn is_volume(&self) -> bool {
        self.mode == Mode::Volume
    }

    /// Whether this is a block schedule.
    pub closed spec fn is_block(&self) -> bool {
        self.mode == Mode::Block
    }

    /// Whether this is a capacity schedule.
    pub closed spec fn is_capacity(&self) -> bool {
        self.mode == Mode::Capacity
    }

    /// A schedule is exactly one of the four modes.
    pub proof fn lemma_one_mode(&self)
        ensures
            (self.is_graduated() as int) + (self.is_volume() as int) + (self.is_block() as int) + (
            self.is_capacity() as int) == 1,
    {
    }

    /// Graduated: each tier at its own price.
    pub fn graduated() -> (b: TariffScheduleBuilder)
        ensures
            b.is_graduated() && b.bands_spec().len() == 0 && b.unit_spec() == "units"@,
    {
        TariffScheduleBuilder { mode: Mode::Graduated, bands: Vec::new(), unit: owned("units") }
    }

    /// Volume: all units at the price of the top tier reached.
    pub fn volume() -> (b: TariffScheduleBuilder)
        ensures
            b.is_volume() && b.bands_spec().len() == 0 && b.unit_spec() == "units"@,
    {
        TariffScheduleBuilder { mode: Mode::Volume, bands: Vec::new(), unit: owned("units") }
    }

    /// Block: a price per block of units, partial blocks rounded up.
    pub fn block() -> (b: TariffScheduleBuilder)
        ensures
            b.is_block() && b.bands_spec().len() == 0 && b.unit_spec() == "units"@,
    {
        TariffScheduleBuilder { mode: Mode::Block, bands: Vec::new(), unit: owned("units") }
    }

    /// Capacity: the peak value selects the tier.
    pub fn capacity() -> (b: TariffScheduleBuilder)
        ensures
            b.is_capacity() && b.bands_spec().len() == 0 && b.unit_spec() == "units"@,
    {
        TariffScheduleBuilder { mode: Mode::Capacity, bands: Vec::new(), unit: owned("units") }
    }

    /// The quantity unit label.
    pub fn unit(&self) -> (r: &str)
        ensures
            r@ == self.unit_spec(),
    {
        self.unit.as_str()
    }

    /// The price of the tier covering `quantity`: the first band whose upper
    /// bound is at or above it, or that is unbounded; else the last band.
    fn find_tier_price(&self, quantity: Decimal) -> (r: Option<Amount<5>>)
        ensures
            r == tier_price_from(self.bands_spec(), 0, quantity),
    {
        let n = self.bands.len();
        let mut i: usize = 0;
        while i < n
            invariant
                i <= n,
                n == self.bands.len(),
                tier_price_from(self.bands@, 0, quantity) == tier_price_from(self.bands@, i as int, quantity),
            decreases n - i,
        {
            let band = &self.bands[i];
            match &band.upper {
                Some(u) => {
                    if !u.lt(&quantity) {
                        return Some(band.price);
                    }
                },
                None => {
                    return Some(band.price);
                },
            }
            i = i + 1;
        }
        if n > 0 {
            Some(self.bands[n - 1].price)
        } else {
            None
        }
    }
}

impl TariffScheduleBuilder {
    /// The bands added so far.
    pub closed spec fn bands_spec(&self) -> Seq<TariffBand> {
        self.bands@
    }

    /// The unit label.
    pub closed spec fn unit_spec(&self) -> Seq<char> {
        self.unit@
    }

    /// Whether this builds a graduated schedule.
    pub closed spec fn is_graduated(&self) -> bool {
        self.mode == Mode::Graduated
    }

    /// Whether this builds a volume schedule.
    pub closed spec fn is_volume(&self) -> bool {
        self.mode == Mode::Volume
    }

    /// Whether this builds a block schedule.
    pub closed spec fn is_block(&self) -> bool {
        self.mode == Mode::Block
    }

    /// Whether this builds a capacity schedule.
    pub closed spec fn is_capacity(&self) -> bool {
        self.mode == Mode::Capacity
    }

    /// Append a pricing band.
    pub fn band(self, band: TariffBand) -> (b: TariffScheduleBuilder)
        ensures
            b.bands_spec() == self.bands_spec().push(band),
            b.unit_spec() == self.unit_spec(),
            b.is_graduated() == self.is_graduated() && b.is_volume() == self.is_volume(),
            b.is_block() == self.is_block() && b.is_capacity() == self.is_capacity(),
    {
        let mut s = self;
        s.bands.push(band);
        s
    }

    /// Set the quantity unit label.
    pub fn unit(self, unit: &str) -> (b: TariffScheduleBuilder)
        ensures
            b.bands_spec() == self.bands_spec(),
            b.unit_spec() == unit@,
            b.is_graduated() == self.is_graduated() && b.is_volume() == self.is_volume(),
            b.is_block() == self.is_block() && b.is_capacity() == self.is_capacity(),
    {
        TariffScheduleBuilder { unit: owned(unit), ..self }
    }

    /// Validate and build the schedule: `Err(InvalidSchedule)` exactly when
    /// the bands fail [`schedule_valid`]; otherwise `Err(InvalidInput)`
    /// exactly when the unit label is empty or whitespace-only.
    pub fn build(self) -> (r: Result<TariffSchedule, BillingError>)
        ensures
            r is Ok <==> trim_spec(self.unit_spec()).len() > 0 && schedule_valid(self.bands_spec(), self.is_block()),
            r matches Err(e) ==> (e is InvalidSchedule <==> !schedule_valid(self.bands_spec(), self.is_block())),
            r matches Err(e) ==> (e is InvalidSchedule || e is InvalidInput),
            r matches Ok(s) ==> s.bands_spec() == self.bands_spec() && s.unit_spec() == self.unit_spec()
                && s.is_graduated() == self.is_graduated() && s.is_volume() == self.is_volume()
                && s.is_block() == self.is_block() && s.is_capacity() == self.is_capacity(),
    {
        let n = self.bands.len();
        let block = self.mode == Mode::Block;
        if n == 0 {
            return Err(BillingError::InvalidSchedule { reason: owned("schedule must have at least one band") });
        }
        if block && n != 1 {
            return Err(BillingError::InvalidSchedule { reason: owned("block schedule must have exactly one band") });
        }
        let zero = Decimal::zero();
        let mut i: usize = 0;
        while i < n
            invariant
                i <= n,
                n == self.bands.len(),
                block == (self.mode == Mode::Block),
                zero.m() == 0 && zero.s() == 0,
                forall|k: int| 0 <= k < i ==> band_ok(#[trigger] self.bands@[k], block),
            decreases n - i,
        {
            let band = &self.bands[i];
            if band.price.is_negative() {
                return Err(BillingError::InvalidSchedule { reason: owned("band price must be non-negative; use DiscountLayer for credits") });
            }
            if let Some(l) = &band.lower {
                if l.lt(&zero) {
                    return Err(BillingError::InvalidSchedule { reason: owned("band lower bound must be non-negative") });
                }
            }
            if let Some(u) = &band.upper {
                if !zero.lt(u) {
                    return Err(BillingError::InvalidSchedule { reason: owned("band upper bound must be positive") });
                }
            }
            if let (Some(l), Some(u)) = (&band.lower, &band.upper) {
                if !l.lt(u) {
                    return Err(BillingError::InvalidSchedule { reason: owned("band lower bound must be strictly less than upper bound") });
                }
            }
            if let Some(bs) = &band.block_size {
                if !zero.lt(bs) {
                    return Err(BillingError::InvalidSchedule { reason: owned("block_size must be positive (> 0)") });
                }
            }
            if block && band.block_size.is_none() {
                return Err(BillingError::InvalidSchedule { reason: owned("block schedule band must specify block_size") });
            }
            if !block && band.block_size.is_some() {
                return Err(BillingError::InvalidSchedule { reason: owned("block_size is only valid in block mode schedules") });
            }
            i = i + 1;
        }
        if n > 1 && !block {
            let mut expected = Decimal::zero();
            proof {
                Decimal::lemma_value_of(expected);
            }
            let mut i: usize = 0;
            while i < n
                invariant
                    i <= n,
                    n == self.bands.len(),
                    n > 1,
                    i < n ==> expected == expected_lower(self.bands@, i as int),
                    forall|k: int| 0 <= k < i && k < n - 1 ==> (#[trigger] self.bands@[k]).upper is Some,
                    forall|k: int|
                        0 <= k < i ==> ((#[trigger] self.bands@[k]).lower matches Some(l) ==> l.same_value(
                            expected_lower(self.bands@, k),
                        )),
                decreases n - i,
            {
                let band = &self.bands[i];
                if let Some(l) = &band.lower {
                    if !l.value_eq(&expected) {
                        return Err(BillingError::InvalidSchedule { reason: owned("bands must be contiguous: gap or overlap detected") });
                    }
                }
                if i < n - 1 {
                    match &band.upper {
                        Some(u) => {
                            expected = *u;
                        },
                        None => {
                            return Err(BillingError::InvalidSchedule { reason: owned("only the last band may have an unlimited upper bound") });
                        },
                    }
                }
                i = i + 1;
            }
        }
        let unit = crate::validate_unit(self.unit)?;
        Ok(TariffSchedule { mode: self.mode, bands: self.bands, unit })
    }
}

/// A usage position can be built from a description, a quantity (as
/// mantissa and scale), a price and a unit label: the description and unit
/// are not blank, the quantity is not negative, and `quantity × price`
/// rounded to five places can be formed and fits `i64`.
pub open spec fn usage_builds(desc: Seq<char>, qty: (int, nat), price: Amount<5>, unit: Seq<char>) -> bool {
    &&& trim_spec(desc).len() > 0
    &&& trim_spec(unit).len() > 0
    &&& qty.0 >= 0
    &&& decimal_product(qty.0, qty.1, price@ as int, 5) matches Some((pm, ps)) && fits_i64(
        rounded_raw(pm, ps, 5, RoundingStrategy::MidpointAwayFromZero),
    )
}

/// `item` is the usage position `desc`: `qty` `unit` at `price` per unit
/// (the price labelled `EUR/unit`), its amount the rounded product.
pub open spec fn usage_item(item: LineItem, desc: Seq<char>, qty: (int, nat), price: Amount<5>, unit: Seq<char>) -> bool {
    &&& item.description@ == desc && item.sign == Sign::Debit
    &&& item.quantity matches Some(q) && q.value.m() == qty.0 && q.value.s() == qty.1 && q.unit@ == unit && q.code is None
    &&& item.unit_price matches Some(p) && p.value.m() == price@ && p.value.s() == 5 && p.unit@ == "EUR/"@ + unit
        && p.base_quantity is None && p.base_quantity_code is None && p.gross_price is None
        && p.price_discount is None
    &&& decimal_product(qty.0, qty.1, price@ as int, 5) matches Some((pm, ps)) && item.net_amount@ == rounded_raw(
        pm,
        ps,
        5,
        RoundingStrategy::MidpointAwayFromZero,
    )
    &&& item.period is None && item.tags@.len() == 0 && item.vat is None && item.allowance_charge is None
    &&& item.metadata@.len() == 0
}

/// Build the usage position of [`usage_item`]; `Ok` exactly when
/// [`usage_builds`] holds.
fn usage_line(desc: &str, qty: Decimal, price: Amount<5>, unit: &str) -> (r: Result<LineItem, BillingError>)
    ensures
        r is Ok <==> usage_builds(desc@, (qty.m(), qty.s()), price, unit@),
        r matches Ok(item) ==> usage_item(item, desc@, (qty.m(), qty.s()), price, unit@),
{
    let price_unit = concat("EUR/", unit);
    proof {
        reveal_strlit("EUR/");
        lemma_trim_keeps(price_unit@, 0);
    }
    LineItem::debit(desc).quantity(Quantity::new(qty, unit)).unit_price(UnitPrice::new(price.into_decimal(), price_unit.as_str())).build()
}

/// `a < b` for decimals given as mantissa and scale.
pub open spec fn pair_lt(a: (int, nat), b: (int, nat)) -> bool {
    a.0 * pow10(b.1) < b.0 * pow10(a.1)
}

/// The generated description of graduated tier `i`.
pub open spec fn tier_description(band: TariffBand, unit: Seq<char>, i: int, prev: (int, nat)) -> Seq<char> {
    match band.description {
        Some(d) => d@,
        None => match band.upper {
            Some(u) => "Tier "@ + nat_text((i + 1) as nat) + " (up to "@ + decimal_text(u.m(), u.s()) + " "@ + unit + ")"@,
            None => "Tier "@ + nat_text((i + 1) as nat) + " (over "@ + decimal_text(prev.0, prev.1) + " "@ + unit
                + ")"@,
        },
    }
}

/// The lines of a graduated split from band `i` on, with `remaining`
/// quantity left and `prev` the previous band's upper bound: each band takes
/// the smaller of what remains and its width, and a band that takes a
/// positive quantity yields a line (description, quantity, price). `None`
/// where a difference of decimals cannot be formed.
pub open spec fn graduated_plan(
    bands: Seq<TariffBand>,
    unit: Seq<char>,
    i: int,
    remaining: (int, nat),
    prev: (int, nat),
) -> Option<Seq<(Seq<char>, (int, nat), Amount<5>)>>
    decreases bands.len() - i,
{
    if i < 0 || i >= bands.len() || remaining.0 <= 0 {
        Some(Seq::empty())
    } else {
        let band = bands[i];
        let cap = match band.upper {
            Some(u) => decimal_difference(u.m(), u.s(), prev.0, prev.1),
            None => Some(remaining),
        };
        let next_prev = match band.upper {
            Some(u) => (u.m(), u.s()),
            None => prev,
        };
        match cap {
            None => None,
            Some(c) => {
                let qty = if pair_lt(c, remaining) {
                    c
                } else {
                    remaining
                };
                if qty.0 > 0 {
                    match decimal_difference(remaining.0, remaining.1, qty.0, qty.1) {
                        None => None,
                        Some(left) => match graduated_plan(bands, unit, i + 1, left, next_prev) {
                            None => None,
                            Some(rest) => Some(seq![(tier_description(band, unit, i, prev), qty, band.price)] + rest),
                        },
                    }
                } else {
                    graduated_plan(bands, unit, i + 1, remaining, next_prev)
                }
            },
        }
    }
}

/// The positions of a plan, built in order: `Some` of the positions when
/// every line builds, `None` otherwise.
pub open spec fn plan_builds(lines: Seq<(Seq<char>, (int, nat), Amount<5>)>, unit: Seq<char>) -> bool {
    forall|k: int| 0 <= k < lines.len() ==> usage_builds(#[trigger] lines[k].0, lines[k].1, lines[k].2, unit)
}

/// `items` are the positions of `lines`, in order.
pub open spec fn plan_items(items: Seq<LineItem>, lines: Seq<(Seq<char>, (int, nat), Amount<5>)>, unit: Seq<char>) -> bool {
    &&& items.len() == lines.len()
    &&& forall|k: int| 0 <= k < lines.len() ==> usage_item(#[trigger] items[k], lines[k].0, lines[k].1, lines[k].2, unit)
}

/// The block count of a block split: `quantity ÷ block size` rounded up;
/// `None` where the quotient cannot be formed.
pub open spec fn block_count(q: Decimal, bs: Decimal) -> Option<(int, nat)> {
    match decimal_quotient(q.m(), q.s(), bs.m(), bs.s()) {
        None => None,
        Some((m, s)) => Some(ceil_spec(m, s)),
    }
}

/// The unit label of a block: `size-unit-block`.
pub open spec fn block_label(bs: Decimal, unit: Seq<char>) -> Seq<char> {
    decimal_text(bs.m(), bs.s()) + "-"@ + unit + "-block"@
}

impl TariffSchedule {
    /// Every arithmetic step of splitting `quantity` can be formed.
    pub open spec fn split_defined(&self, quantity: Decimal) -> bool {
        &&& self.is_graduated() ==> graduated_plan(self.bands_spec(), self.unit_spec(), 0, (quantity.m(), quantity.s()), (0, 0)) is Some
        &&& (self.is_block() && quantity.m() != 0 && self.bands_spec().len() > 0 && self.bands_spec()[0].block_size is Some)
            ==> block_count(quantity, self.bands_spec()[0].block_size->0) is Some
    }

    /// The positions of a non-negative quantity: a graduated schedule yields
    /// one per tier that takes a positive share ([`graduated_plan`]), each
    /// tier taking the part of the quantity between its lower and upper
    /// bound ([`graduated_shares`]); a
    /// volume schedule one position priced at the tier the quantity reaches;
    /// a block schedule one position of whole blocks, rounded up. Zero
    /// yields nothing for volume and block. `Err(InvalidInput)` for a
    /// negative quantity or a capacity schedule.
    pub fn split(&self, quantity: Decimal) -> (r: Result<Vec<LineItem>, BillingError>)
        requires
            quantity.m() >= 0 ==> self.split_defined(quantity),
        ensures
            (quantity.m() < 0 || self.is_capacity()) ==> (r matches Err(e) && e is InvalidInput),
            (quantity.m() >= 0 && self.is_graduated()) ==> ({
                let lines = graduated_plan(self.bands_spec(), self.unit_spec(), 0, (quantity.m(), quantity.s()), (0, 0))->0;
                &&& r is Ok <==> plan_builds(lines, self.unit_spec())
                &&& r matches Ok(v) ==> plan_items(v@, lines, self.unit_spec())
            }),
            self.is_graduated() ==> forall|t: nat|
                #[trigger] tiers_exact(self.bands_spec(), quantity, t) ==> (r matches Ok(v) ==> graduated_shares(
                    self.bands_spec(),
                    quantity,
                    t,
                    v@,
                )),
            (quantity.m() >= 0 && self.is_volume()) ==> (quantity.m() == 0 ==> (r matches Ok(v) && v@.len() == 0)),
            (quantity.m() > 0 && self.is_volume()) ==> match tier_price_from(self.bands_spec(), 0, quantity) {
                None => r matches Err(e) && e is InvalidSchedule,
                Some(price) => {
                    let desc = "Usage charge ("@ + self.unit_spec() + " volume)"@;
                    &&& r is Ok <==> usage_builds(desc, (quantity.m(), quantity.s()), price, self.unit_spec())
                    &&& r matches Ok(v) ==> v@.len() == 1 && usage_item(v@[0], desc, (quantity.m(), quantity.s()), price, self.unit_spec())
                },
            },
            (quantity.m() >= 0 && self.is_block()) ==> (quantity.m() == 0 ==> (r matches Ok(v) && v@.len() == 0)),
            (quantity.m() > 0 && self.is_block()) ==> {
                if self.bands_spec().len() == 0 || self.bands_spec()[0].block_size is None {
                    r matches Err(e) && e is InvalidSchedule
                } else {
                    let bs = self.bands_spec()[0].block_size->0;
                    let label = block_label(bs, self.unit_spec());
                    let desc = "Usage charge (block, "@ + decimal_text(bs.m(), bs.s()) + " "@ + self.unit_spec() + "/block)"@;
                    let blocks = block_count(quantity, bs)->0;
                    &&& r is Ok <==> usage_builds(desc, blocks, self.bands_spec()[0].price, label)
                    &&& r matches Ok(v) ==> v@.len() == 1 && usage_item(v@[0], desc, blocks, self.bands_spec()[0].price, label)
                }
            },
    {
        if quantity.is_negative() {
            return Err(BillingError::invalid_input("quantity must be non-negative"));
        }
        match self.mode {
            Mode::Graduated => self.split_graduated(quantity),
            Mode::Volume => self.split_volume(quantity),
            Mode::Block => self.split_block(quantity),
            Mode::Capacity => Err(BillingError::invalid_input("Capacity schedule requires apply_peak(), not split()")),
        }
    }

    /// [`TariffSchedule::split`] where every arithmetic step can be formed,
    /// `None` where one cannot.
    pub fn checked_split(&self, quantity: Decimal) -> (r: Option<Result<Vec<LineItem>, BillingError>>)
        ensures
            r is Some <==> (quantity.m() >= 0 ==> self.split_defined(quantity)),
    {
        if !quantity.is_negative() && !self.split_defined_exec(quantity) {
            return None;
        }
        Some(self.split(quantity))
    }

    fn split_defined_exec(&self, quantity: Decimal) -> (r: bool)
        ensures
            r == self.split_defined(quantity),
    {
        let graduated_ok = if self.mode == Mode::Graduated {
            graduated_formable(&self.bands, &self.unit, quantity)
        } else {
            true
        };
        let block_ok = if self.mode == Mode::Block && !quantity.is_zero() && self.bands.len() > 0 {
            match &self.bands[0].block_size {
                Some(bs) => quantity.checked_div(bs).is_some(),
                None => true,
            }
        } else {
            true
        };
        graduated_ok && block_ok
    }

    fn split_graduated(&self, quantity: Decimal) -> (r: Result<Vec<LineItem>, BillingError>)
        requires
            quantity.m() >= 0,
            graduated_plan(self.bands_spec(), self.unit_spec(), 0, (quantity.m(), quantity.s()), (0, 0)) is Some,
        ensures
            ({
                let lines = graduated_plan(self.bands_spec(), self.unit_spec(), 0, (quantity.m(), quantity.s()), (0, 0))->0;
                &&& r is Ok <==> plan_builds(lines, self.unit_spec())
                &&& r matches Ok(v) ==> plan_items(v@, lines, self.unit_spec())
            }),
            forall|t: nat|
                #[trigger] tiers_exact(self.bands_spec(), quantity, t) ==> (r matches Ok(v) ==> graduated_shares(
                    self.bands_spec(),
                    quantity,
                    t,
                    v@,
                )),
    {
        let bands = &self.bands;
        let unit = self.unit.as_str();
        let ghost full = graduated_plan(bands@, unit@, 0, (quantity.m(), quantity.s()), (0, 0))->0;
        let mut items: Vec<LineItem> = Vec::new();
        let mut remaining = quantity;
        let mut prev_upper = Decimal::zero();
        let ghost mut done: Seq<(Seq<char>, (int, nat), Amount<5>)> = Seq::empty();
        let mut tier: usize = 0;
        while tier < bands.len() && !(remaining.mantissa() <= 0)
            invariant
                tier <= bands@.len(),
                bands@ == self.bands_spec(),
                unit@ == self.unit_spec(),
                full == graduated_plan(self.bands_spec(), self.unit_spec(), 0, (quantity.m(), quantity.s()), (0, 0))->0,
                graduated_plan(bands@, unit@, tier as int, (remaining.m(), remaining.s()), (prev_upper.m(), prev_upper.s()))
                    matches Some(rest) && full == done + rest,
                plan_builds(done, unit@),
                plan_items(items@, done, unit@),
                forall|t: nat|
                    #[trigger] tiers_exact(bands@, quantity, t) ==> graduated_progress(
                        bands@,
                        quantity,
                        t,
                        tier as int,
                        remaining,
                        prev_upper,
                        done,
                    ),
            decreases bands@.len() - tier,
        {
            proof { reveal_strlit(" (up to "); }
            let ghost rem0 = remaining;
            let ghost prev0 = prev_upper;
            let ghost done0 = done;
            let band = &bands[tier];
            let cap = match &band.upper {
                Some(u) => u.checked_sub(&prev_upper).unwrap(),
                None => remaining,
            };
            let qty = if cap.lt(&remaining) { cap } else { remaining };
            if qty.mantissa() > 0 {
                let desc = match &band.description {
                    Some(d) => d.clone(),
                    None => tier_text(band, unit, tier, prev_upper),
                };
                let item = match usage_line(desc.as_str(), qty, band.price, unit) {
                    Ok(x) => x,
                    Err(e) => {
                        proof {
                            let rest = graduated_plan(bands@, unit@, tier as int, (remaining.m(), remaining.s()), (prev_upper.m(), prev_upper.s()))->0;
                            let k = done.len() as int;
                            assert(rest[0] == (desc@, (qty.m(), qty.s()), band.price));
                            assert(full[k] == rest[0]);
                            assert(!usage_builds(full[k].0, full[k].1, full[k].2, unit@));
                        }
                        return Err(e);
                    },
                };
                proof {
                    let rest = graduated_plan(bands@, unit@, tier as int, (remaining.m(), remaining.s()), (prev_upper.m(), prev_upper.s()))->0;
                    let line = rest[0];
                    assert(line == (desc@, (qty.m(), qty.s()), band.price));
                    assert(full == (done.push(line)) + rest.drop_first());
                    done = done.push(line);
                }
                items.push(item);
                remaining = remaining.checked_sub(&qty).unwrap();
            }
            match &band.upper {
                Some(u) => {
                    prev_upper = *u;
                },
                None => {},
            }
            proof {
                assert forall|t: nat| #[trigger] tiers_exact(bands@, quantity, t) implies graduated_progress(
                    bands@,
                    quantity,
                    t,
                    tier + 1,
                    remaining,
                    prev_upper,
                    done,
                ) by {
                    lemma_graduated_step(
                        bands@,
                        quantity,
                        t,
                        tier as int,
                        rem0,
                        prev0,
                        cap,
                        qty,
                        remaining,
                        prev_upper,
                        done0,
                        done,
                    );
                }
            }
            tier = tier + 1;
        }
        proof {
            let rest = graduated_plan(bands@, unit@, tier as int, (remaining.m(), remaining.s()), (prev_upper.m(), prev_upper.s()))->0;
            assert(rest.len() == 0);
            assert(full =~= done);
            assert forall|t: nat| #[trigger] tiers_exact(bands@, quantity, t) implies graduated_shares(
                bands@,
                quantity,
                t,
                items@,
            ) by {
                lemma_graduated_end(bands@, quantity, t, tier as int, remaining, prev_upper, done);
                assert forall|j: int| 0 <= j < items@.len() implies ({
                    &&& (#[trigger] items@[j]).quantity matches Some(x) && x.value.s() <= t && at_scale(x.value, t)
                        == tier_share(bands@, j, at_scale(quantity, t), t)
                    &&& items@[j].unit_price matches Some(p) && p.value.m() == bands@[j].price@
                }) by {
                    assert(tier_line(bands@, j, at_scale(quantity, t), t, done[j]));
                    assert(usage_item(items@[j], done[j].0, done[j].1, done[j].2, unit@));
                }
            }
        }
        Ok(items)
    }

    fn split_volume(&self, quantity: Decimal) -> (r: Result<Vec<LineItem>, BillingError>)
        requires
            quantity.m() >= 0,
        ensures
            quantity.m() == 0 ==> (r matches Ok(v) && v@.len() == 0),
            quantity.m() > 0 ==> match tier_price_from(self.bands_spec(), 0, quantity) {
                None => r matches Err(e) && e is InvalidSchedule,
                Some(price) => {
                    let desc = "Usage charge ("@ + self.unit_spec() + " volume)"@;
                    &&& r is Ok <==> usage_builds(desc, (quantity.m(), quantity.s()), price, self.unit_spec())
                    &&& r matches Ok(v) ==> v@.len() == 1 && usage_item(v@[0], desc, (quantity.m(), quantity.s()), price, self.unit_spec())
                },
            },
    {
        if quantity.is_zero() {
            return Ok(Vec::new());
        }
        let price = match self.find_tier_price(quantity) {
            Some(p) => p,
            None => {
                return Err(BillingError::InvalidSchedule { reason: owned("no tier covers the supplied quantity") });
            },
        };
        let a = concat("Usage charge (", self.unit.as_str());
        let desc = concat(a.as_str(), " volume)");
        let item = usage_line(desc.as_str(), quantity, price, self.unit.as_str())?;
        proof {
            reveal_strlit("Usage charge (");
            reveal_strlit(" volume)");
        }
        let mut v: Vec<LineItem> = Vec::new();
        v.push(item);
        Ok(v)
    }

    fn split_block(&self, quantity: Decimal) -> (r: Result<Vec<LineItem>, BillingError>)
        requires
            quantity.m() >= 0,
            (quantity.m() != 0 && self.bands_spec().len() > 0 && self.bands_spec()[0].block_size is Some)
                ==> block_count(quantity, self.bands_spec()[0].block_size->0) is Some,
        ensures
            quantity.m() == 0 ==> (r matches Ok(v) && v@.len() == 0),
            quantity.m() > 0 ==> {
                if self.bands_spec().len() == 0 || self.bands_spec()[0].block_size is None {
                    r matches Err(e) && e is InvalidSchedule
                } else {
                    let bs = self.bands_spec()[0].block_size->0;
                    let label = block_label(bs, self.unit_spec());
                    let desc = "Usage charge (block, "@ + decimal_text(bs.m(), bs.s()) + " "@ + self.unit_spec() + "/block)"@;
                    let blocks = block_count(quantity, bs)->0;
                    &&& r is Ok <==> usage_builds(desc, blocks, self.bands_spec()[0].price, label)
                    &&& r matches Ok(v) ==> v@.len() == 1 && usage_item(v@[0], desc, blocks, self.bands_spec()[0].price, label)
                }
            },
    {
        if quantity.is_zero() {
            return Ok(Vec::new());
        }
        if self.bands.len() == 0 {
            return Err(BillingError::InvalidSchedule { reason: owned("block schedule requires at least one band") });
        }
        let band = &self.bands[0];
        let block_size = match &band.block_size {
            Some(b) => *b,
            None => {
                return Err(BillingError::InvalidSchedule { reason: owned("block schedule band must have a block_size") });
            },
        };
        let blocks = quantity.checked_div(&block_size).unwrap().ceil();
        let size_text = block_size.to_text();
        let a = concat(size_text.as_str(), "-");
        let b = concat(a.as_str(), self.unit.as_str());
        let label = concat(b.as_str(), "-block");
        let c = concat("Usage charge (block, ", size_text.as_str());
        let d = concat(c.as_str(), " ");
        let e = concat(d.as_str(), self.unit.as_str());
        let desc = concat(e.as_str(), "/block)");
        let item = usage_line(desc.as_str(), blocks, band.price, label.as_str())?;
        proof {
            reveal_strlit("-");
            reveal_strlit("-block");
            reveal_strlit("Usage charge (block, ");
            reveal_strlit(" ");
            reveal_strlit("/block)");
        }
        let mut v: Vec<LineItem> = Vec::new();
        v.push(item);
        Ok(v)
    }

    /// The capacity charge for a peak value: one debit of the price of the
    /// tier the peak reaches, described `Capacity charge (peak p unit)` with
    /// the peak at three places. `Err(InvalidInput)` on a schedule that is not
    /// a capacity schedule or for a negative peak; `Err(InvalidSchedule)` where
    /// no tier covers it.
    pub fn apply_peak(&self, peak: Decimal) -> (r: Result<LineItem, BillingError>)
        ensures
            (!self.is_capacity() || peak.m() < 0) ==> (r matches Err(e) && e is InvalidInput),
            (self.is_capacity() && peak.m() >= 0) ==> match tier_price_from(self.bands_spec(), 0, peak) {
                None => r matches Err(e) && e is InvalidSchedule,
                Some(price) => r matches Ok(item) && {
                    &&& item.net_amount == price && item.sign == Sign::Debit
                    &&& item.description@ == "Capacity charge (peak "@ + decimal_fixed_text(peak.m(), peak.s(), 3) + " "@
                        + self.unit_spec() + ")"@
                    &&& item.quantity is None && item.unit_price is None && item.period is None
                    &&& item.tags@.len() == 0 && item.vat is None && item.allowance_charge is None
                },
            },
    {
        if self.mode != Mode::Capacity {
            return Err(BillingError::invalid_input("apply_peak() is only valid for capacity schedules"));
        }
        if peak.is_negative() {
            return Err(BillingError::invalid_input("peak must be non-negative"));
        }
        let price = match self.find_tier_price(peak) {
            Some(p) => p,
            None => {
                return Err(BillingError::InvalidSchedule { reason: owned("no tier covers the supplied peak value") });
            },
        };
        let a = concat("Capacity charge (peak ", peak.to_fixed_text(3).as_str());
        let b = concat(a.as_str(), " ");
        let c = concat(b.as_str(), self.unit.as_str());
        let desc = concat(c.as_str(), ")");
        proof {
            reveal_strlit("Capacity charge (peak ");
            reveal_strlit(" ");
            reveal_strlit(")");
            lemma_trim_keeps(desc@, 0);
        }
        let r = LineItem::debit(desc.as_str()).fixed_amount(price).build();
        proof {
            if r is Ok {
                Amount::<5>::lemma_raw_eq(r->Ok_0.net_amount, price);
            }
        }
        r
    }
}

/// The generated description of graduated tier `tier`.
fn tier_text(band: &TariffBand, unit: &str, tier: usize, prev: Decimal) -> (r: String)
    requires
        tier < usize::MAX,
        band.description is None,
    ensures
        r@ == tier_description(*band, unit@, tier as int, (prev.m(), prev.s())),
{
    let head = concat("Tier ", usize_text(tier + 1).as_str());
    let (open, bound) = match &band.upper {
        Some(u) => (" (up to ", u.to_text()),
        None => (" (over ", prev.to_text()),
    };
    let a = concat(head.as_str(), open);
    let b = concat(a.as_str(), bound.as_str());
    let c = concat(b.as_str(), " ");
    let d = concat(c.as_str(), unit);
    let r = concat(d.as_str(), ")");
    proof {
        reveal_strlit("Tier ");
        reveal_strlit(" (up to ");
        reveal_strlit(" (over ");
        reveal_strlit(" ");
        reveal_strlit(")");
    }
    r
}

/// Whether every difference a graduated split of `quantity` forms can be
/// formed.
fn graduated_formable(bands: &Vec<TariffBand>, unit: &String, quantity: Decimal) -> (r: bool)
    ensures
        r == (graduated_plan(bands@, unit@, 0, (quantity.m(), quantity.s()), (0, 0)) is Some),
{
    let mut remaining = quantity;
    let mut prev_upper = Decimal::zero();
    let mut tier: usize = 0;
    while tier < bands.len() && !(remaining.mantissa() <= 0)
        invariant
            tier <= bands@.len(),
            (graduated_plan(bands@, unit@, 0, (quantity.m(), quantity.s()), (0, 0)) is Some) == (graduated_plan(
                bands@,
                unit@,
                tier as int,
                (remaining.m(), remaining.s()),
                (prev_upper.m(), prev_upper.s()),
            ) is Some),
        decreases bands@.len() - tier,
    {
        let band = &bands[tier];
        let cap = match &band.upper {
            Some(u) => match u.checked_sub(&prev_upper) {
                Some(c) => c,
                None => {
                    return false;
                },
            },
            None => remaining,
        };
        let qty = if cap.lt(&remaining) { cap } else { remaining };
        if qty.mantissa() > 0 {
            remaining = match remaining.checked_sub(&qty) {
                Some(x) => x,
                None => {
                    return false;
                },
            };
        }
        match &band.upper {
            Some(u) => {
                prev_upper = *u;
            },
            None => {},
        }
        tier = tier + 1;
    }
    true
}

} // verus!
