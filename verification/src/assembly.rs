//! Assembling a [`BillingDocument`] from positions, discount layers and tax
//! layers, optionally at a fixed number of decimal places.
use vstd::prelude::*;

use crate::advance::{entry_valid, sums_fit, taxes, Prepayment};
use crate::amount::{fits_scale_spec, raw_sum, rounded_raw, Amount, AmountScale, RoundingStrategy};
use crate::arith::lemma_pow10_pos;
use crate::decimal::{pow10, round_div};
use vstd::arithmetic::div_mod::{lemma_fundamental_div_mod, lemma_mod_multiples_basic};
use crate::document::{
    item_valid, merge_breakdown, merged_breakdown, nets, sum_nets, BillingDocument, DocumentMeta, DocumentParts,
};
use crate::arith::fits_i64;
use crate::decimal::{decimal_product, Decimal};
use crate::error::BillingError;
use crate::line_item::{clone_item, AllowanceCharge, LineItem, Sign};
use crate::tax::{item_has_tag, DiscountLayer, TaxLayer};
use crate::text::{debug_quoted, join3, owned};
use vstd::string::StringExecFns;
use crate::vat::{LineVat, TaxBreakdownEntry};

verus! {

/// The exact product `quantity × unit price` of a usage position, where both
/// are present and `rust_decimal` can form it.
pub open spec fn exact_product(item: LineItem) -> Option<(int, nat)> {
    match (item.quantity, item.unit_price) {
        (Some(q), Some(p)) => decimal_product(q.value.m(), q.value.s(), p.value.m(), p.value.s()),
        _ => None,
    }
}

/// `v` under the sign convention of `sign`: a credit's positive value is
/// negated.
pub open spec fn credit_signed(v: int, sign: Sign) -> int {
    if sign == Sign::Credit && v > 0 {
        -v
    } else {
        v
    }
}

/// The net amount of `item` reduced to `s`, or `None` where the result leaves
/// `i64`.
///
/// A usage position whose stored amount is still the rounded product of
/// quantity and price is reduced from the exact product in one rounding;
/// every other position has its stored amount reduced.
pub open spec fn reduced_net(item: LineItem, s: AmountScale) -> Option<int> {
    let net = item.net_amount@ as int;
    match exact_product(item) {
        None => s.reduce_spec(net),
        Some((pm, ps)) => {
            let r5 = rounded_raw(pm, ps, 5, RoundingStrategy::MidpointAwayFromZero);
            if !fits_i64(r5) || credit_signed(r5, item.sign) != net {
                s.reduce_spec(net)
            } else {
                let x = s.reduce_decimal_spec(pm, ps);
                if fits_i64(x) {
                    Some(credit_signed(x, item.sign))
                } else {
                    None
                }
            }
        },
    }
}

/// An allowance/charge with its base amount reduced to `s`; `None` where
/// the reduced base leaves `i64`.
pub open spec fn reduced_basis(ac: Option<AllowanceCharge>, s: AmountScale) -> Option<Option<AllowanceCharge>> {
    match ac {
        None => Some(None),
        Some(a) => match a.base_amount {
            None => Some(Some(a)),
            Some(b) => match s.reduce_spec(b@ as int) {
                None => None,
                Some(x) => Some(Some(AllowanceCharge { base_amount: Some(Amount::<5>::from_raw_spec(x)), ..a })),
            },
        },
    }
}

/// The raw five-place value `v` carries no digit beyond the decimals of `s`.
pub open spec fn fits_at(v: int, s: AmountScale) -> bool {
    fits_scale_spec(v, 5, s.spec_decimals() as nat)
}

/// Every position's net amount fits the decimals of `s`.
pub open spec fn nets_fit_at(items: Seq<LineItem>, s: AmountScale) -> bool {
    forall|i: int| 0 <= i < items.len() ==> fits_at((#[trigger] items[i]).net_amount@ as int, s)
}

/// A breakdown entry's base and tax fit the decimals of `s`.
pub open spec fn entry_fits_at(e: TaxBreakdownEntry, s: AmountScale) -> bool {
    fits_at(e.taxable_base@ as int, s) && fits_at(e.tax_amount@ as int, s)
}

/// A multiple of the step of `s` fits it.
pub proof fn lemma_multiple_fits(k: int, s: AmountScale)
    requires
        s.spec_decimals() < 5,
    ensures
        fits_at(k * pow10((5 - s.spec_decimals()) as nat), s),
{
    let m = pow10((5 - s.spec_decimals()) as nat);
    lemma_pow10_pos((5 - s.spec_decimals()) as nat);
    lemma_mod_multiples_basic(k, m);
}

/// What fits `s` stays fitting when negated and when added to what fits.
pub proof fn lemma_fits_closed(a: int, b: int, s: AmountScale)
    requires
        fits_at(a, s),
        fits_at(b, s),
    ensures
        fits_at(-a, s),
        fits_at(a + b, s),
{
    if s.spec_decimals() < 5 {
        let m = pow10((5 - s.spec_decimals()) as nat);
        lemma_pow10_pos((5 - s.spec_decimals()) as nat);
        lemma_fundamental_div_mod(a, m);
        lemma_fundamental_div_mod(b, m);
        assert(-a == (-(a / m)) * m) by (nonlinear_arith)
            requires
                a == m * (a / m) + 0,
        ;
        lemma_multiple_fits(-(a / m), s);
        assert(a + b == (a / m + b / m) * m) by (nonlinear_arith)
            requires
                a == m * (a / m) + 0,
                b == m * (b / m) + 0,
        ;
        lemma_multiple_fits(a / m + b / m, s);
    }
}

/// A value reduced to `s` fits it.
proof fn lemma_reduce_fits(v: int, s: AmountScale)
    requires
        s.reduce_spec(v) is Some,
    ensures
        fits_at(s.reduce_spec(v)->0, s),
{
    if s.spec_decimals() < 5 {
        let m = pow10((5 - s.spec_decimals()) as nat);
        lemma_multiple_fits(round_div(v, m, s.spec_strategy()), s);
    }
}

/// An exact decimal reduced to `s` fits it.
proof fn lemma_reduce_decimal_fits(pm: int, ps: nat, s: AmountScale)
    ensures
        fits_at(s.reduce_decimal_spec(pm, ps), s),
{
    if s.spec_decimals() < 5 {
        lemma_multiple_fits(rounded_raw(pm, ps, s.spec_decimals() as nat, s.spec_strategy()), s);
    }
}

/// A position's net amount reduced to `s` fits it.
proof fn lemma_reduced_net_fits(item: LineItem, s: AmountScale)
    requires
        reduced_net(item, s) is Some,
    ensures
        fits_at(reduced_net(item, s)->0, s),
{
    let net = item.net_amount@ as int;
    match exact_product(item) {
        None => lemma_reduce_fits(net, s),
        Some((pm, ps)) => {
            let r5 = rounded_raw(pm, ps, 5, RoundingStrategy::MidpointAwayFromZero);
            if !fits_i64(r5) || credit_signed(r5, item.sign) != net {
                lemma_reduce_fits(net, s);
            } else {
                let x = s.reduce_decimal_spec(pm, ps);
                lemma_reduce_decimal_fits(pm, ps, s);
                lemma_fits_closed(x, x, s);
            }
        },
    }
}

/// Reduce one position's net amount to `scale`, rounding the exact product
/// once where the position is still `quantity × unit price`.
fn reduce_position(item: &LineItem, scale: AmountScale) -> (r: Result<Amount<5>, BillingError>)
    ensures
        r is Ok <==> reduced_net(*item, scale) is Some,
        r matches Ok(a) ==> reduced_net(*item, scale) == Some(a@ as int),
        r matches Err(e) ==> e is MonetaryOverflow,
{
    let product = match (&item.quantity, &item.unit_price) {
        (Some(q), Some(p)) => match q.value.checked_mul(&p.value) {
            Some(x) => x,
            None => {
                return scale.apply(item.net_amount);
            },
        },
        _ => {
            return scale.apply(item.net_amount);
        },
    };
    let engine_value = match Amount::<5>::from_decimal_rounded(product, RoundingStrategy::MidpointAwayFromZero) {
        Ok(v) => {
            if item.is_credit() && v.is_positive() {
                v.checked_neg()?
            } else {
                v
            }
        },
        Err(_) => {
            return scale.apply(item.net_amount);
        },
    };
    if engine_value.to_raw() != item.net_amount.to_raw() {
        return scale.apply(item.net_amount);
    }
    let reduced = scale.apply_decimal(product)?;
    if item.is_credit() && reduced.is_positive() {
        reduced.checked_neg()
    } else {
        Ok(reduced)
    }
}

/// Reduce an allowance/charge base amount to `scale`.
fn reduce_basis(ac: Option<AllowanceCharge>, scale: AmountScale) -> (r: Result<Option<AllowanceCharge>, BillingError>)
    ensures
        r is Ok <==> reduced_basis(ac, scale) is Some,
        r matches Ok(x) ==> reduced_basis(ac, scale) == Some(x),
        r matches Err(e) ==> e is MonetaryOverflow,
{
    match ac {
        None => Ok(None),
        Some(mut a) => {
            match a.base_amount {
                None => {},
                Some(base) => {
                    let reduced = scale.apply(base)?;
                    proof { Amount::<5>::lemma_from_raw_spec(reduced); }
                    a.base_amount = Some(reduced);
                },
            }
            Ok(Some(a))
        },
    }
}

/// A discount position with its amount and allowance base reduced to
/// `scale`; `None` where a reduced value leaves `i64`.
pub open spec fn scaled_discount(item: LineItem, scale: Option<AmountScale>) -> Option<LineItem> {
    match scale {
        None => Some(item),
        Some(s) => match (s.reduce_spec(item.net_amount@ as int), reduced_basis(item.allowance_charge, s)) {
            (Some(x), Some(ac)) => Some(LineItem { net_amount: Amount::<5>::from_raw_spec(x), allowance_charge: ac, ..item }),
            _ => None,
        },
    }
}

/// `item` with the layer's declared VAT attribution and allowance/charge
/// reason filled in where the item states none.
pub open spec fn declared(item: LineItem, vat: Option<LineVat>, ac: Option<AllowanceCharge>) -> LineItem {
    LineItem {
        vat: if item.vat is None {
            vat
        } else {
            item.vat
        },
        allowance_charge: if item.allowance_charge is None {
            ac
        } else {
            item.allowance_charge
        },
        ..item
    }
}

/// Bring a discount layer's position into the document: reduce it to the
/// scale, refuse a positive amount (a discount is a credit), and fill in the
/// layer's declared VAT attribution and reason.
fn finish_discount(
    item: LineItem,
    scale: Option<AmountScale>,
    vat: Option<LineVat>,
    ac: Option<AllowanceCharge>,
    layer: &str,
) -> (r: Result<LineItem, BillingError>)
    ensures
        match scaled_discount(item, scale) {
            None => r matches Err(e) && e is MonetaryOverflow,
            Some(d) => if d.net_amount@ > 0 {
                r matches Err(e) && e is LayerError
            } else {
                r == Ok::<LineItem, BillingError>(declared(d, vat, ac))
            },
        },
        scale matches Some(s) ==> (r matches Ok(d) ==> fits_at(d.net_amount@ as int, s)),
{
    let mut item = item;
    match scale {
        None => {},
        Some(s) => {
            let net = s.apply(item.net_amount)?;
            proof {
                Amount::<5>::lemma_from_raw_spec(net);
                lemma_reduce_fits(item.net_amount@ as int, s);
            }
            item.net_amount = net;
            item.allowance_charge = reduce_basis(item.allowance_charge, s)?;
        },
    }
    if item.net_amount.is_positive() {
        let mut reason = join3("discount layer ", debug_quoted(layer).as_str(), " returned a positive amount (");
        reason.append(item.net_amount.to_string().as_str());
        reason.append("); a discount must be a credit");
        return Err(BillingError::LayerError { reason });
    }
    if item.vat.is_none() {
        item.vat = vat;
    }
    if item.allowance_charge.is_none() {
        item.allowance_charge = ac;
    }
    Ok(item)
}

/// A breakdown entry reduced to `scale`: the base is reduced, and the tax is
/// the exact product of the reduced base and the rate, rounded once. `None`
/// where the product cannot be formed or a value leaves `i64`.
pub open spec fn scaled_entry(entry: TaxBreakdownEntry, scale: Option<AmountScale>) -> Option<TaxBreakdownEntry> {
    match scale {
        None => Some(entry),
        Some(s) => match s.reduce_spec(entry.taxable_base@ as int) {
            None => None,
            Some(b) => match decimal_product(b, 5, entry.rate.m(), entry.rate.s()) {
                None => None,
                Some((pm, ps)) => {
                    let t = s.reduce_decimal_spec(pm, ps);
                    if fits_i64(t) {
                        Some(
                            TaxBreakdownEntry {
                                taxable_base: Amount::<5>::from_raw_spec(b),
                                tax_amount: Amount::<5>::from_raw_spec(t),
                                ..entry
                            },
                        )
                    } else {
                        None
                    }
                },
            },
        },
    }
}

/// Bring a tax layer's breakdown entry into the document: reduce it to the
/// scale and validate it.
fn finish_entry(entry: TaxBreakdownEntry, scale: Option<AmountScale>) -> (r: Result<TaxBreakdownEntry, BillingError>)
    ensures
        match scaled_entry(entry, scale) {
            None => r matches Err(e) && e is MonetaryOverflow,
            Some(x) => if entry_valid(x) {
                r == Ok::<TaxBreakdownEntry, BillingError>(x)
            } else {
                r is Err
            },
        },
        scale matches Some(s) ==> (r matches Ok(e) ==> entry_fits_at(e, s)),
{
    let mut entry = entry;
    match scale {
        None => {},
        Some(s) => {
            let base = s.apply(entry.taxable_base)?;
            proof {
                Amount::<5>::lemma_from_raw_spec(base);
                lemma_reduce_fits(entry.taxable_base@ as int, s);
            }
            entry.taxable_base = base;
            let product = match base.into_decimal().checked_mul(&entry.rate) {
                Some(p) => p,
                None => {
                    return Err(BillingError::overflow(5, None));
                },
            };
            let tax = s.apply_decimal(product)?;
            proof {
                Amount::<5>::lemma_from_raw_spec(tax);
                lemma_reduce_decimal_fits(product.m(), product.s(), s);
            }
            entry.tax_amount = tax;
        },
    }
    entry.validate()?;
    Ok(entry)
}

/// The views of a list of tags.
pub open spec fn tag_views(tags: Seq<String>) -> Seq<Seq<char>> {
    tags.map_values(|t: String| t@)
}

/// `tags` with `tag` appended unless it is already there.
pub open spec fn with_tag(tags: Seq<Seq<char>>, tag: Seq<char>) -> Seq<Seq<char>> {
    if tags.contains(tag) {
        tags
    } else {
        tags.push(tag)
    }
}

/// The tags of a tax layer's position: `tax`, and `vat` for a VAT layer.
pub open spec fn tax_tags(tags: Seq<Seq<char>>, is_vat: bool) -> Seq<Seq<char>> {
    if is_vat {
        with_tag(with_tag(tags, "tax"@), "vat"@)
    } else {
        with_tag(tags, "tax"@)
    }
}

/// A tax layer's position reduced to `scale`: its amount is the scaled tax
/// of its breakdown entry where there is one, else the position reduced as
/// any other; its allowance base is reduced. `None` where a reduced value
/// leaves `i64`.
pub open spec fn scaled_tax_item(item: LineItem, scale: Option<AmountScale>, tax: Option<Amount<5>>) -> Option<LineItem> {
    match scale {
        None => Some(item),
        Some(s) => {
            let net = match tax {
                Some(t) => Some(t@ as int),
                None => reduced_net(item, s),
            };
            match (net, reduced_basis(item.allowance_charge, s)) {
                (Some(x), Some(ac)) => Some(LineItem { net_amount: Amount::<5>::from_raw_spec(x), allowance_charge: ac, ..item }),
                _ => None,
            }
        },
    }
}

/// Add `tag` to `item` unless it carries it already.
fn add_tag(item: &mut LineItem, tag: &str)
    ensures
        final(item).description == old(item).description && final(item).quantity == old(item).quantity,
        final(item).unit_price == old(item).unit_price && final(item).net_amount == old(item).net_amount,
        final(item).sign == old(item).sign && final(item).period == old(item).period,
        final(item).vat == old(item).vat && final(item).allowance_charge == old(item).allowance_charge,
        final(item).metadata == old(item).metadata,
        tag_views(final(item).tags@) == with_tag(tag_views(old(item).tags@), tag@),
{
    let ghost before = tag_views(item.tags@);
    if item.has_tag(tag) {
        proof {
            let i = choose|i: int| 0 <= i < item.tags.len() && (#[trigger] item.tags[i])@ == tag@;
            assert(before[i] == tag@);
        }
    } else {
        proof {
            assert forall|i: int| 0 <= i < before.len() implies before[i] != tag@ by {
                assert(item.tags@[i]@ == before[i]);
            }
        }
        item.tags.push(owned(tag));
        assert(tag_views(item.tags@) =~= before.push(tag@));
    }
}

/// Bring a tax layer's position into the document: reduce it to the scale,
/// tag it `tax` (and `vat` for a VAT layer), and for a charge that is not VAT
/// fill in the layer's declared VAT attribution and reason.
fn finish_tax_item(
    item: LineItem,
    scale: Option<AmountScale>,
    tax: Option<Amount<5>>,
    is_vat: bool,
    vat: Option<LineVat>,
    ac: Option<AllowanceCharge>,
) -> (r: Result<LineItem, BillingError>)
    ensures
        r is Ok <==> scaled_tax_item(item, scale, tax) is Some,
        r matches Err(e) ==> e is MonetaryOverflow,
        r matches Ok(t) ==> {
            let d = scaled_tax_item(item, scale, tax)->0;
            let e = if is_vat {
                d
            } else {
                declared(d, vat, ac)
            };
            &&& t == (LineItem { tags: t.tags, ..e })
            &&& tag_views(t.tags@) == tax_tags(tag_views(e.tags@), is_vat)
        },
        scale matches Some(s) ==> ((tax matches Some(x) ==> fits_at(x@ as int, s)) ==> (r matches Ok(t) ==> fits_at(
            t.net_amount@ as int,
            s,
        ))),
{
    let mut item = item;
    match scale {
        None => {},
        Some(s) => {
            let net = match tax {
                Some(t) => t,
                None => reduce_position(&item, s)?,
            };
            proof {
                Amount::<5>::lemma_from_raw_spec(net);
                if tax is None {
                    lemma_reduced_net_fits(item, s);
                }
            }
            item.net_amount = net;
            item.allowance_charge = reduce_basis(item.allowance_charge, s)?;
        },
    }
    if !is_vat {
        if item.vat.is_none() {
            item.vat = vat;
        }
        if item.allowance_charge.is_none() {
            item.allowance_charge = ac;
        }
    }
    let ghost e = item;
    proof { reveal_strlit("tax"); reveal_strlit("vat"); }
    add_tag(&mut item, "tax");
    if is_vat {
        add_tag(&mut item, "vat");
    }
    Ok(item)
}

/// Two VAT attributions name the same category and the same rate.
pub open spec fn same_vat(a: LineVat, b: LineVat) -> bool {
    a.category == b.category && a.rate.same_value(b.rate)
}

/// A VAT layer attributing `vat` to `item` clashes: the item is itself a VAT
/// position, or it already carries a different attribution.
pub open spec fn attribution_clash(item: LineItem, vat: LineVat) -> bool {
    item_has_tag(item, "vat"@) || (item.vat matches Some(p) && !same_vat(p, vat))
}

/// `item` after a VAT layer attributing `vat` has passed over it.
pub open spec fn attributed_to(item: LineItem, covered: bool, vat: LineVat) -> LineItem {
    if covered && item.vat is None {
        LineItem { vat: Some(vat), ..item }
    } else {
        item
    }
}

/// Attribute `vat` to every position a VAT layer covers; `Err(LayerError)`
/// where a covered position is itself VAT or belongs to another VAT group.
fn attribute(items: &mut Vec<LineItem>, covered: &Vec<bool>, vat: LineVat, layer: &str) -> (r: Result<(), BillingError>)
    requires
        old(items).len() == covered.len(),
    ensures
        r is Ok <==> forall|i: int| 0 <= i < covered.len() && #[trigger] covered@[i] ==> !attribution_clash(old(items)@[i], vat),
        r matches Err(e) ==> e is LayerError,
        r is Ok ==> final(items)@.len() == old(items)@.len() && forall|i: int| 0 <= i < covered.len() ==> #[trigger] final(items)@[i]
            == attributed_to(old(items)@[i], covered@[i], vat),
{
    let ghost before = items@;
    proof { reveal_strlit("vat"); }
    let mut i: usize = 0;
    while i < covered.len()
        invariant
            i <= covered.len(),
            before == old(items)@,
            before.len() == covered.len(),
            items@.len() == before.len(),
            forall|k: int| 0 <= k < i && #[trigger] covered@[k] ==> !attribution_clash(before[k], vat),
            forall|k: int| 0 <= k < i ==> #[trigger] items@[k] == attributed_to(before[k], covered@[k], vat),
            forall|k: int| i <= k < before.len() ==> #[trigger] items@[k] == before[k],
        decreases covered.len() - i,
    {
        if covered[i] {
            if items[i].has_tag("vat") {
                assert(covered@[i as int] && attribution_clash(before[i as int], vat));
                let mut reason = join3("tax layer ", debug_quoted(layer).as_str(), " would charge VAT on the VAT position ");
                reason.append(debug_quoted(items[i].description.as_str()).as_str());
                reason.append(
                    "; EN 16931 has no way to express that (a VAT breakdown group is not part of another group's taxable base). Restrict the layer's base with a tag.",
                );
                return Err(BillingError::LayerError { reason });
            }
            match items[i].vat {
                Some(p) => {
                    if !(p.category == vat.category && p.rate.value_eq(&vat.rate)) {
                        assert(covered@[i as int] && attribution_clash(before[i as int], vat));
                        let mut reason = join3("tax layer ", debug_quoted(layer).as_str(), " attributes VAT ");
                        reason.append(vat.to_string().as_str());
                        reason.append(" to position ");
                        reason.append(debug_quoted(items[i].description.as_str()).as_str());
                        reason.append(", which already carries ");
                        reason.append(p.to_string().as_str());
                        reason.append("; a position belongs to exactly one VAT group (BR-S-08)");
                        return Err(BillingError::LayerError { reason });
                    }
                },
                None => {
                    let mut x = items.remove(i);
                    x.vat = Some(vat);
                    items.insert(i, x);
                },
            }
        }
        i = i + 1;
    }
    Ok(())
}

/// Whether `layer` covers each of `items`.
fn coverage(layer: &Box<dyn TaxLayer>, items: &Vec<LineItem>) -> (r: Vec<bool>)
    ensures
        r.len() == items.len(),
{
    let mut r: Vec<bool> = Vec::new();
    let mut i: usize = 0;
    while i < items.len()
        invariant
            i <= items.len(),
            r.len() == i,
        decreases items.len() - i,
    {
        r.push(layer.covers(&items[i]));
        i = i + 1;
    }
    r
}

/// Every position of `items` passes [`LineItem::validate`].
pub open spec fn all_valid(items: Seq<LineItem>) -> bool {
    forall|i: int| 0 <= i < items.len() ==> item_valid(#[trigger] items[i])
}

/// Every position of `items` can be placed at `scale`.
pub open spec fn all_placeable(items: Seq<LineItem>, scale: Option<AmountScale>) -> bool {
    forall|i: int| 0 <= i < items.len() ==> placeable(#[trigger] items[i], scale)
}

/// Every position passes [`LineItem::validate`]; the first failure's error
/// otherwise.
fn check_positions(items: &Vec<LineItem>) -> (r: Result<(), BillingError>)
    ensures
        r is Ok <==> forall|i: int| 0 <= i < items@.len() ==> item_valid(#[trigger] items@[i]),
        r matches Err(e) ==> (e is InvalidInput || e is MonetaryOverflow),
{
    let mut i: usize = 0;
    while i < items.len()
        invariant
            i <= items.len(),
            forall|k: int| 0 <= k < i ==> item_valid(#[trigger] items@[k]),
        decreases items.len() - i,
    {
        items[i].validate()?;
        i = i + 1;
    }
    Ok(())
}

/// `item` as it is placed into a document assembled at `scale`: its net
/// amount reduced where there is a scale.
pub open spec fn placed(item: LineItem, scale: Option<AmountScale>) -> LineItem {
    match scale {
        None => item,
        Some(s) => LineItem { net_amount: Amount::<5>::from_raw_spec(reduced_net(item, s)->0), ..item },
    }
}

/// `item` can be placed at `scale`: its reduced amount fits `i64`.
pub open spec fn placeable(item: LineItem, scale: Option<AmountScale>) -> bool {
    scale matches Some(s) ==> reduced_net(item, s) is Some
}

/// Every position of `items` placed at `scale`.
pub open spec fn placed_all(items: Seq<LineItem>, scale: Option<AmountScale>) -> Seq<LineItem> {
    items.map_values(|p: LineItem| placed(p, scale))
}

/// Reduce every position's net amount to `scale`.
fn reduce_all(input: Vec<LineItem>, scale: AmountScale) -> (r: Result<Vec<LineItem>, BillingError>)
    ensures
        r is Ok <==> forall|i: int| 0 <= i < input@.len() ==> placeable(#[trigger] input@[i], Some(scale)),
        r matches Ok(v) ==> v@ == placed_all(input@, Some(scale)),
        r matches Ok(v) ==> nets_fit_at(v@, scale),
        r matches Err(e) ==> e is MonetaryOverflow,
{
    let ghost before = input@;
    let mut items = input;
    let mut i: usize = 0;
    while i < items.len()
        invariant
            before == input@,
            items@.len() == before.len(),
            i <= items@.len(),
            forall|k: int| 0 <= k < i ==> placeable(#[trigger] before[k], Some(scale)),
            forall|k: int| 0 <= k < i ==> #[trigger] items@[k] == placed(before[k], Some(scale)),
            forall|k: int| i <= k < before.len() ==> #[trigger] items@[k] == before[k],
            forall|k: int| 0 <= k < i ==> fits_at((#[trigger] items@[k]).net_amount@ as int, scale),
        decreases items.len() - i,
    {
        assert(items@[i as int] == before[i as int]);
        let net = match reduce_position(&items[i], scale) {
            Ok(n) => n,
            Err(e) => {
                assert(!placeable(before[i as int], Some(scale)));
                return Err(e);
            },
        };
        proof {
            Amount::<5>::lemma_from_raw_spec(net);
            lemma_reduced_net_fits(before[i as int], scale);
        }
        let mut x = items.remove(i);
        x.net_amount = net;
        items.insert(i, x);
        i = i + 1;
    }
    assert(items@ =~= placed_all(before, Some(scale)));
    Ok(items)
}

/// `p` stands in a document for the layer's answer `x`: it keeps the
/// answer's description, quantity, price, sign, period and metadata, and at
/// full precision its amount; the amount is reduced at a scale, and the tags,
/// VAT attribution and allowance/charge reason may be filled in.
pub open spec fn from_layer(p: LineItem, x: LineItem, scale: Option<AmountScale>) -> bool {
    &&& p.description == x.description && p.quantity == x.quantity && p.unit_price == x.unit_price
    &&& p.sign == x.sign && p.period == x.period && p.metadata@ == x.metadata@
    &&& scale is None ==> p.net_amount == x.net_amount
}

/// `p` is a discount that layer `j` of `layers` answered for `input`, as it stands in a
/// document assembled at `scale`.
pub open spec fn discount_from(layers: Seq<Box<dyn DiscountLayer>>, j: int, input: Seq<LineItem>, p: LineItem, scale: Option<AmountScale>) -> bool {
    exists|x: LineItem| layers[j].computes(input, Ok(x)) && from_layer(p, x, scale)
}

/// `got` is `want` position for position, but for VAT attributions.
pub open spec fn same_but_vat_all(got: Seq<LineItem>, want: Seq<LineItem>) -> bool {
    got.len() == want.len() && forall|i: int| 0 <= i < got.len() ==> same_but_vat(#[trigger] got[i], want[i])
}

/// `p` is the position that tax layer `t` of `layers` answered for a list
/// that is `input` but for VAT attributions (the attributions earlier VAT
/// layers and this one gave), as it stands in a document assembled at
/// `scale`.
pub open spec fn tax_from(layers: Seq<Box<dyn TaxLayer>>, t: int, input: Seq<LineItem>, p: LineItem, scale: Option<AmountScale>) -> bool {
    exists|seen: Seq<LineItem>, x: LineItem| #[trigger] layers[t].computes(seen, Ok(x)) && same_but_vat_all(seen, input)
        && from_layer(p, x, scale)
}

/// Agreeing in every field but the VAT attribution is transitive, position
/// for position.
proof fn lemma_same_but_vat_trans(a: Seq<LineItem>, b: Seq<LineItem>, c: Seq<LineItem>)
    requires
        same_but_vat_all(a, b),
        same_but_vat_all(b, c),
    ensures
        same_but_vat_all(a, c),
{
    assert forall|i: int| 0 <= i < a.len() implies same_but_vat(#[trigger] a[i], c[i]) by {
        assert(same_but_vat(a[i], b[i]) && same_but_vat(b[i], c[i]));
    }
}

/// A tax layer's answer for a list stands for any list that agrees with it
/// but for VAT attributions, and in any position that agrees with it in what
/// [`from_layer`] keeps.
proof fn lemma_tax_from_transfer(
    layers: Seq<Box<dyn TaxLayer>>,
    t: int,
    in1: Seq<LineItem>,
    in2: Seq<LineItem>,
    p1: LineItem,
    p2: LineItem,
    scale: Option<AmountScale>,
)
    requires
        tax_from(layers, t, in1, p1, scale),
        same_but_vat_all(in1, in2),
        same_but_vat(p2, p1),
    ensures
        tax_from(layers, t, in2, p2, scale),
{
    let (seen, x) = choose|seen: Seq<LineItem>, x: LineItem| #[trigger] layers[t].computes(seen, Ok(x)) && same_but_vat_all(
        seen,
        in1,
    ) && from_layer(p1, x, scale);
    lemma_same_but_vat_trans(seen, in1, in2);
    assert(from_layer(p2, x, scale));
}

/// The discount positions the discount layers compute over `positions`, in
/// order, each brought into the document by [`finish_discount`].
fn discount_items(discounts: &Vec<Box<dyn DiscountLayer>>, positions: &Vec<LineItem>, scale: Option<AmountScale>) -> (r:
    Result<Vec<LineItem>, BillingError>)
    ensures
        r matches Ok(v) ==> forall|j: int| 0 <= j < v@.len() ==> discount_from(discounts@, j, positions@, #[trigger] v@[j], scale),
        r matches Ok(v) ==> v@.len() == discounts@.len() && forall|j: int| 0 <= j < v@.len() ==> (#[trigger] v@[j]).net_amount@ <= 0,
        r matches Ok(v) ==> (scale matches Some(s) ==> nets_fit_at(v@, s)),
        discounts@.len() == 0 ==> r is Ok,
{
    let mut out: Vec<LineItem> = Vec::new();
    let mut j: usize = 0;
    while j < discounts.len()
        invariant
            j <= discounts.len(),
            out@.len() == j,
            forall|k: int| 0 <= k < j ==> (#[trigger] out@[k]).net_amount@ <= 0,
            forall|k: int| 0 <= k < j ==> discount_from(discounts@, k, positions@, #[trigger] out@[k], scale),
            scale matches Some(s) ==> nets_fit_at(out@, s),
        decreases discounts.len() - j,
    {
        let layer = &discounts[j];
        let item = layer.compute(positions.as_slice())?;
        let vat = layer.vat();
        let ac = layer.allowance_charge();
        let d = finish_discount(item, scale, vat, ac, layer.name())?;
        let ghost prev = out@;
        out.push(d);
        proof {
            assert forall|k: int| 0 <= k < j + 1 implies discount_from(discounts@, k, positions@, #[trigger] out@[k], scale) by {
                if k < j {
                    assert(out@[k] == prev[k]);
                } else {
                    assert(discounts@[k].computes(positions@, Ok(item)) && from_layer(out@[k], item, scale));
                }
            }
        }
        j = j + 1;
    }
    Ok(out)
}

/// `a` and `b` agree in every field but the VAT attribution.
pub open spec fn same_but_vat(a: LineItem, b: LineItem) -> bool {
    &&& a.description == b.description && a.quantity == b.quantity && a.unit_price == b.unit_price
    &&& a.net_amount == b.net_amount && a.sign == b.sign && a.period == b.period
    &&& a.tags@ == b.tags@ && a.allowance_charge == b.allowance_charge && a.metadata@ == b.metadata@
}

/// `a` keeps the VAT attribution `b` carries, if any.
pub open spec fn keeps_vat(a: LineItem, b: LineItem) -> bool {
    b.vat is Some ==> a.vat == b.vat
}

/// Append copies of `items` to `acc`.
fn append_copies(acc: &mut Vec<LineItem>, items: &Vec<LineItem>)
    ensures
        final(acc)@.len() == old(acc)@.len() + items@.len(),
        forall|k: int| 0 <= k < old(acc)@.len() ==> #[trigger] final(acc)@[k] == old(acc)@[k],
        forall|k: int| 0 <= k < items@.len() ==> same_but_vat(#[trigger] final(acc)@[old(acc)@.len() + k], items@[k])
            && final(acc)@[old(acc)@.len() + k].vat == items@[k].vat,
{
    let ghost before = acc@;
    let mut i: usize = 0;
    while i < items.len()
        invariant
            before == old(acc)@,
            i <= items.len(),
            acc@.len() == before.len() + i,
            forall|k: int| 0 <= k < before.len() ==> #[trigger] acc@[k] == before[k],
            forall|k: int| 0 <= k < i ==> same_but_vat(#[trigger] acc@[before.len() + k], items@[k])
                && acc@[before.len() + k].vat == items@[k].vat,
        decreases items.len() - i,
    {
        acc.push(clone_item(&items[i]));
        i = i + 1;
    }
}

proof fn lemma_tagged_tax(t: LineItem, tags: Seq<Seq<char>>, is_vat: bool)
    requires
        tag_views(t.tags@) == tax_tags(tags, is_vat),
    ensures
        item_has_tag(t, "tax"@),
{
    let w = with_tag(tags, "tax"@);
    assert(w.contains("tax"@)) by {
        if !tags.contains("tax"@) {
            assert(w[w.len() - 1] == "tax"@);
        }
    }
    let all = tag_views(t.tags@);
    assert(all.contains("tax"@)) by {
        if is_vat && !w.contains("vat"@) {
            let j = choose|j: int| 0 <= j < w.len() && w[j] == "tax"@;
            assert(all[j] == "tax"@);
        }
    }
    let j = choose|j: int| 0 <= j < all.len() && all[j] == "tax"@;
    assert(t.tags@[j]@ == "tax"@);
}

/// Run the tax layers in order over the growing list `acc` (positions,
/// discounts, then each earlier tax position). A VAT layer attributes its
/// group to every position it covers and contributes a breakdown entry; each
/// layer's position is brought in by [`finish_tax_item`] and appended.
fn apply_tax_layers(tax_layers: &Vec<Box<dyn TaxLayer>>, acc: &mut Vec<LineItem>, scale: Option<AmountScale>) -> (r:
    Result<(Vec<LineItem>, Vec<TaxBreakdownEntry>), BillingError>)
    ensures
        r matches Ok((tax, entries)) ==> {
            &&& tax@.len() == tax_layers@.len()
            &&& final(acc)@.len() == old(acc)@.len() + tax@.len()
            &&& forall|i: int| 0 <= i < old(acc)@.len() ==> same_but_vat(#[trigger] final(acc)@[i], old(acc)@[i]) && keeps_vat(
                final(acc)@[i],
                old(acc)@[i],
            )
            &&& forall|t: int| 0 <= t < tax@.len() ==> same_but_vat(final(acc)@[old(acc)@.len() + t], #[trigger] tax@[t])
                && item_has_tag(tax@[t], "tax"@)
            &&& forall|t: int| 0 <= t < tax@.len() ==> tax_from(tax_layers@, t, old(acc)@ + tax@.take(t), #[trigger] tax@[t], scale)
            &&& forall|k: int| 0 <= k < entries@.len() ==> entry_valid(#[trigger] entries@[k])
            &&& scale matches Some(s) ==> nets_fit_at(tax@, s) && forall|k: int| 0 <= k < entries@.len() ==> entry_fits_at(
                #[trigger] entries@[k],
                s,
            )
        },
        tax_layers@.len() == 0 ==> (r matches Ok((tax, entries)) && entries@.len() == 0 && final(acc)@ == old(acc)@),
{
    let ghost before = acc@;
    let ghost n0 = acc@.len();
    let mut tax: Vec<LineItem> = Vec::new();
    let mut entries: Vec<TaxBreakdownEntry> = Vec::new();
    let mut k: usize = 0;
    while k < tax_layers.len()
        invariant
            before == old(acc)@,
            n0 == before.len(),
            k <= tax_layers.len(),
            tax@.len() == k,
            acc@.len() == n0 + k,
            forall|i: int| 0 <= i < n0 ==> same_but_vat(#[trigger] acc@[i], before[i]) && keeps_vat(acc@[i], before[i]),
            forall|t: int| 0 <= t < k ==> same_but_vat(acc@[n0 + t], #[trigger] tax@[t]) && item_has_tag(tax@[t], "tax"@),
            forall|t: int| 0 <= t < k ==> tax_from(tax_layers@, t, before + tax@.take(t), #[trigger] tax@[t], scale),
            forall|j: int| 0 <= j < entries@.len() ==> entry_valid(#[trigger] entries@[j]),
            entries@.len() <= k,
            k == 0 ==> acc@ == before,
            scale matches Some(s) ==> nets_fit_at(tax@, s) && forall|j: int| 0 <= j < entries@.len() ==> entry_fits_at(
                #[trigger] entries@[j],
                s,
            ),
        decreases tax_layers.len() - k,
    {
        let layer = &tax_layers[k];
        let breakdown = layer.breakdown(acc.as_slice())?;
        let is_vat = breakdown.is_some();
        let mut scaled_tax: Option<Amount<5>> = None;
        match breakdown {
            Some(entry) => {
                let vat = LineVat::new(entry.category, entry.rate)?;
                let covered = coverage(layer, acc);
                let ghost mid = acc@;
                attribute(acc, &covered, vat, layer.name())?;
                assert forall|i: int| 0 <= i < n0 implies same_but_vat(#[trigger] acc@[i], before[i]) && keeps_vat(acc@[i], before[i]) by {
                    assert(acc@[i] == attributed_to(mid[i], covered@[i], vat));
                }
                assert forall|t: int| 0 <= t < k implies same_but_vat(acc@[n0 + t], #[trigger] tax@[t]) by {
                    assert(acc@[n0 + t] == attributed_to(mid[n0 + t], covered@[n0 + t], vat));
                }
                let e = finish_entry(entry, scale)?;
                if scale.is_some() {
                    scaled_tax = Some(e.tax_amount);
                }
                entries.push(e);
            },
            None => {},
        }
        assert(scale matches Some(s) ==> (scaled_tax matches Some(x) ==> fits_at(x@ as int, s)));
        let item = layer.compute(acc.as_slice())?;
        let ghost mid_acc = acc@;
        proof {
            assert forall|i: int| 0 <= i < acc@.len() implies same_but_vat(#[trigger] acc@[i], (before + tax@)[i]) by {
                if i >= n0 {
                    assert(same_but_vat(acc@[n0 + (i - n0)], tax@[i - n0]));
                }
            }
            assert(tax@.take(k as int) =~= tax@);
        }
        let lv = layer.vat();
        let lac = layer.allowance_charge();
        let done = finish_tax_item(item, scale, scaled_tax, is_vat, lv, lac)?;
        proof {
            let d = scaled_tax_item(item, scale, scaled_tax)->0;
            let e = if is_vat { d } else { declared(d, lv, lac) };
            lemma_tagged_tax(done, tag_views(e.tags@), is_vat);
        }
        let ghost tax_before = tax@;
        acc.push(clone_item(&done));
        tax.push(done);
        proof {
            assert(from_layer(done, item, scale));
            assert(tax_layers@[k as int].computes(mid_acc, Ok(item)));
            assert(tax_from(tax_layers@, k as int, before + tax@.take(k as int), tax@[k as int], scale));
            assert forall|t: int| 0 <= t < k + 1 implies tax_from(tax_layers@, t, before + tax@.take(t), #[trigger] tax@[t], scale) by {
                if t < k {
                    assert(tax@.take(t) =~= tax_before.take(t));
                    assert(tax@[t] == tax_before[t]);
                }
            }
        }
        k = k + 1;
    }
    Ok((tax, entries))
}

/// `items` with each VAT attribution taken from `acc`, starting at `offset`.
fn restore_vat(items: Vec<LineItem>, acc: &Vec<LineItem>, offset: usize) -> (r: Vec<LineItem>)
    requires
        offset + items@.len() <= acc@.len(),
    ensures
        r@.len() == items@.len(),
        forall|i: int| 0 <= i < items@.len() ==> #[trigger] r@[i] == (LineItem { vat: acc@[offset + i].vat, ..items@[i] }),
{
    let ghost before = items@;
    let mut items = items;
    let n = acc.len();
    let mut i: usize = 0;
    while i < items.len()
        invariant
            items@.len() == before.len(),
            n == acc@.len(),
            offset + before.len() <= acc@.len(),
            i <= items@.len(),
            forall|k: int| 0 <= k < i ==> #[trigger] items@[k] == (LineItem { vat: acc@[offset + k].vat, ..before[k] }),
            forall|k: int| i <= k < before.len() ==> #[trigger] items@[k] == before[k],
        decreases items.len() - i,
    {
        let vat = acc[offset + i].vat;
        let mut x = items.remove(i);
        x.vat = vat;
        items.insert(i, x);
        i = i + 1;
    }
    items
}

/// What assembling `positions` under `meta` at `scale` with `nt` tax layers
/// and `nd` discount layers yields, whatever the layers compute: the header;
/// the valid input positions, each placed at the scale, keeping any VAT
/// attribution it carried (a VAT layer covering it may add one); one
/// non-positive discount per discount layer; one position tagged `tax` per
/// tax layer; a breakdown that merges validated entries; totals, discount
/// total and payment fields consistent with the positions; nothing prepaid,
/// no rounding.
pub open spec fn assembled(
    d: BillingDocument,
    meta: DocumentMeta,
    positions: Seq<LineItem>,
    nt: int,
    nd: int,
    scale: Option<AmountScale>,
) -> bool {
    &&& d.meta_spec() == meta
    &&& d.net_spec().len() == positions.len()
    &&& forall|i: int| 0 <= i < positions.len() ==> item_valid(#[trigger] positions[i]) && placeable(positions[i], scale)
    &&& forall|i: int| 0 <= i < positions.len() ==> #[trigger] d.net_spec()[i] == (LineItem {
        vat: d.net_spec()[i].vat,
        ..placed(positions[i], scale)
    })
    &&& forall|i: int| 0 <= i < positions.len() ==> (positions[i].vat is Some ==> (#[trigger] d.net_spec()[i]).vat
        == positions[i].vat)
    &&& nt == 0 ==> forall|i: int| 0 <= i < positions.len() ==> (#[trigger] d.net_spec()[i]).vat == positions[i].vat
    &&& nt == 0 ==> d.breakdown_spec().len() == 0
    &&& d.discount_spec().len() == nd
    &&& forall|j: int| 0 <= j < nd ==> (#[trigger] d.discount_spec()[j]).net_amount@ <= 0
    &&& d.tax_spec().len() == nt
    &&& forall|t: int| 0 <= t < nt ==> item_has_tag(#[trigger] d.tax_spec()[t], "tax"@)
    &&& exists|e: Seq<TaxBreakdownEntry>| #[trigger] merges_entries(e, d.breakdown_spec(), scale)
    &&& scale matches Some(s) ==> nets_fit_at(d.net_spec(), s) && nets_fit_at(d.discount_spec(), s) && nets_fit_at(
        d.tax_spec(),
        s,
    )
    &&& d.totals_ok() && d.discount_total_ok() && d.payment_ok()
    &&& d.prepayment_spec() == Prepayment::Nothing && d.cash_rounding_spec() is None
    &&& d.prepaid_spec()@ == 0 && d.rounding_spec()@ == 0
}

/// `d` is what assembling some positions under `meta` at `scale` with some
/// number of tax and discount layers yields ([`assembled`]).
pub open spec fn assembled_from(d: BillingDocument, meta: DocumentMeta, scale: Option<AmountScale>) -> bool {
    exists|p: Seq<LineItem>, nt: int, nd: int| #[trigger] assembled(d, meta, p, nt, nd, scale)
}

/// `bd` merges the validated entries `e`, each of which fits `scale` where
/// there is one.
pub open spec fn merges_entries(e: Seq<TaxBreakdownEntry>, bd: Seq<TaxBreakdownEntry>, scale: Option<AmountScale>) -> bool {
    &&& forall|k: int| 0 <= k < e.len() ==> entry_valid(#[trigger] e[k])
    &&& merged_breakdown(e) == Some(bd)
    &&& scale matches Some(s) ==> forall|k: int| 0 <= k < e.len() ==> entry_fits_at(#[trigger] e[k], s)
}

/// What the layers answered, as it stands in `d`: discount `j` is what
/// discount layer `j` answered for the placed positions; tax position `t` is
/// what tax layer `t` answered for the document's positions, discounts and
/// the tax positions before it (up to the VAT attributions the VAT layers
/// gave them on the way).
pub open spec fn layered(
    d: BillingDocument,
    positions: Seq<LineItem>,
    taxes: Seq<Box<dyn TaxLayer>>,
    discounts: Seq<Box<dyn DiscountLayer>>,
    scale: Option<AmountScale>,
) -> bool {
    &&& forall|j: int| 0 <= j < discounts.len() ==> discount_from(
        discounts,
        j,
        placed_all(positions, scale),
        #[trigger] d.discount_spec()[j],
        scale,
    )
    &&& forall|t: int| 0 <= t < taxes.len() ==> tax_from(
        taxes,
        t,
        d.net_spec() + d.discount_spec() + d.tax_spec().take(t),
        #[trigger] d.tax_spec()[t],
        scale,
    )
}

/// The layers' answers, as [`assemble`] gathered them, stand in the document
/// it builds: [`layered`].
proof fn lemma_layered(
    d: BillingDocument,
    input: Seq<LineItem>,
    p1: Seq<LineItem>,
    d1: Seq<LineItem>,
    t1: Seq<LineItem>,
    acc0: Seq<LineItem>,
    taxes: Seq<Box<dyn TaxLayer>>,
    discounts: Seq<Box<dyn DiscountLayer>>,
    scale: Option<AmountScale>,
)
    requires
        p1 == placed_all(input, scale),
        d1.len() == discounts.len() && t1.len() == taxes.len(),
        forall|j: int| 0 <= j < d1.len() ==> discount_from(discounts, j, p1, #[trigger] d1[j], scale),
        forall|t: int| 0 <= t < t1.len() ==> tax_from(taxes, t, acc0 + t1.take(t), #[trigger] t1[t], scale),
        same_but_vat_all(acc0, p1 + d1),
        same_but_vat_all(d.net_spec(), p1),
        same_but_vat_all(d.discount_spec(), d1),
        same_but_vat_all(d.tax_spec(), t1),
    ensures
        layered(d, input, taxes, discounts, scale),
{
    assert forall|j: int| 0 <= j < discounts.len() implies discount_from(
        discounts,
        j,
        placed_all(input, scale),
        #[trigger] d.discount_spec()[j],
        scale,
    ) by {
        assert(discount_from(discounts, j, p1, d1[j], scale));
        let x = choose|x: LineItem| discounts[j].computes(p1, Ok(x)) && from_layer(d1[j], x, scale);
        assert(same_but_vat(d.discount_spec()[j], d1[j]));
        assert(from_layer(d.discount_spec()[j], x, scale));
    }
    assert forall|t: int| 0 <= t < taxes.len() implies tax_from(
        taxes,
        t,
        d.net_spec() + d.discount_spec() + d.tax_spec().take(t),
        #[trigger] d.tax_spec()[t],
        scale,
    ) by {
        let want = d.net_spec() + d.discount_spec() + d.tax_spec().take(t);
        let have = acc0 + t1.take(t);
        let np = p1.len();
        let nd = d1.len();
        assert(same_but_vat_all(have, want)) by {
            assert forall|i: int| 0 <= i < want.len() implies same_but_vat(#[trigger] have[i], want[i]) by {
                if i < np {
                    assert(same_but_vat(acc0[i], (p1 + d1)[i]));
                    assert(same_but_vat(d.net_spec()[i], p1[i]));
                } else if i < np + nd {
                    assert(same_but_vat(acc0[i], (p1 + d1)[i]));
                    assert(same_but_vat(d.discount_spec()[i - np], d1[i - np]));
                } else {
                    assert(same_but_vat(d.tax_spec()[i - np - nd], t1[i - np - nd]));
                }
            }
        }
        assert(tax_from(taxes, t, have, t1[t], scale));
        assert(same_but_vat(d.tax_spec()[t], t1[t]));
        lemma_tax_from_transfer(taxes, t, have, want, t1[t], d.tax_spec()[t], scale);
    }
}

/// Without layers, assembly before the final check succeeds exactly when
/// every position is valid and placeable and the placed positions' running
/// totals fit `i64`.
pub open spec fn raw_ok(positions: Seq<LineItem>, scale: Option<AmountScale>) -> bool {
    &&& forall|i: int| 0 <= i < positions.len() ==> item_valid(#[trigger] positions[i]) && placeable(positions[i], scale)
    &&& sums_fit(nets(placed_all(positions, scale)))
}

/// Without layers, assembly succeeds exactly when every position is valid,
/// placeable and still valid once placed, and the placed positions' running
/// totals fit `i64`.
pub open spec fn plain_ok(positions: Seq<LineItem>, scale: Option<AmountScale>) -> bool {
    &&& raw_ok(positions, scale)
    &&& forall|i: int| 0 <= i < positions.len() ==> item_valid(#[trigger] placed(positions[i], scale))
}

/// Assemble a document: validate and place the positions, run the discount
/// layers over them, then the tax layers over positions, discounts and the
/// tax positions before each, compute every total from the result, and check
/// the document as [`BillingDocument::validate`] does, so that every document
/// it returns is consistent.
fn assemble(
    meta: DocumentMeta,
    positions: Vec<LineItem>,
    tax_layers: Vec<Box<dyn TaxLayer>>,
    discounts: Vec<Box<dyn DiscountLayer>>,
    scale: Option<AmountScale>,
) -> (r: Result<BillingDocument, BillingError>)
    ensures
        r matches Ok(d) ==> assembled(d, meta, positions@, tax_layers@.len() as int, discounts@.len() as int, scale),
        r matches Ok(d) ==> layered(d, positions@, tax_layers@, discounts@, scale) && d.doc_valid(),
        !all_valid(positions@) ==> (r matches Err(e) && (e is InvalidInput || e is MonetaryOverflow)),
        (all_valid(positions@) && !all_placeable(positions@, scale)) ==> (r matches Err(e) && e is MonetaryOverflow),
        (tax_layers@.len() == 0 && discounts@.len() == 0) ==> (r is Ok <==> plain_ok(positions@, scale)),
{
    let ghost input = positions@;
    let ghost nt = tax_layers@.len();
    let ghost nd = discounts@.len();
    let d = assemble_unchecked(meta, positions, tax_layers, discounts, scale)?;
    proof {
        if nt == 0 && nd == 0 {
            lemma_plain_assembly_valid(d, meta, input, scale);
        }
    }
    d.validate()?;
    Ok(d)
}

/// [`assemble`] up to the final check.
fn assemble_unchecked(
    meta: DocumentMeta,
    positions: Vec<LineItem>,
    tax_layers: Vec<Box<dyn TaxLayer>>,
    discounts: Vec<Box<dyn DiscountLayer>>,
    scale: Option<AmountScale>,
) -> (r: Result<BillingDocument, BillingError>)
    ensures
        r matches Ok(d) ==> assembled(d, meta, positions@, tax_layers@.len() as int, discounts@.len() as int, scale),
        r matches Ok(d) ==> layered(d, positions@, tax_layers@, discounts@, scale),
        !all_valid(positions@) ==> (r matches Err(e) && (e is InvalidInput || e is MonetaryOverflow)),
        (all_valid(positions@) && !all_placeable(positions@, scale)) ==> (r matches Err(e) && e is MonetaryOverflow),
        (tax_layers@.len() == 0 && discounts@.len() == 0) ==> (r is Ok <==> raw_ok(positions@, scale)),
{
    let ghost input = positions@;
    check_positions(&positions)?;
    let positions = match scale {
        None => positions,
        Some(s) => reduce_all(positions, s)?,
    };
    proof {
        if scale is None {
            assert(positions@ =~= placed_all(input, scale));
        }
    }
    let discount_positions = discount_items(&discounts, &positions, scale)?;
    let net_total = sum_nets(positions.as_slice(), discount_positions.as_slice())?;
    let ghost p1 = positions@;
    let ghost d1 = discount_positions@;
    let mut acc: Vec<LineItem> = Vec::new();
    append_copies(&mut acc, &positions);
    let ghost acc_p = acc@;
    append_copies(&mut acc, &discount_positions);
    let ghost acc0 = acc@;
    assert(same_but_vat_all(acc0, p1 + d1)) by {
        assert forall|i: int| 0 <= i < acc0.len() implies same_but_vat(#[trigger] acc0[i], (p1 + d1)[i]) by {
            if i >= p1.len() {
                assert(same_but_vat(acc0[acc_p.len() + (i - p1.len())], d1[i - p1.len()]));
            } else {
                assert(acc0[i] == acc_p[i]);
                assert(same_but_vat(acc_p[0 + i], p1[i]));
            }
        }
    }
    let (tax_positions, entries) = apply_tax_layers(&tax_layers, &mut acc, scale)?;
    let ghost t1 = tax_positions@;
    let tax_breakdown = merge_breakdown(entries)?;
    let none: Vec<LineItem> = Vec::new();
    let tax_total = sum_nets(tax_positions.as_slice(), none.as_slice())?;
    let gross_total = net_total.checked_add(tax_total)?;
    let np = positions.len();
    let nd = discount_positions.len();
    let na = acc.len();
    assert(np + nd <= na);
    let positions2 = restore_vat(positions, &acc, 0);
    let discounts2 = restore_vat(discount_positions, &acc, np);
    let taxes2 = restore_vat(tax_positions, &acc, np + nd);
    proof {
        assert(nets(positions2@ + discounts2@) =~= nets(p1 + d1));
        assert(nets(taxes2@) =~= nets(t1 + none@));
        assert forall|i: int| 0 <= i < input.len() && input[i].vat is Some implies (#[trigger] positions2@[i]).vat == input[i].vat by {
            assert(acc0[i].vat == p1[i].vat);
        }
        if tax_layers@.len() == 0 {
            assert forall|i: int| 0 <= i < input.len() implies (#[trigger] positions2@[i]).vat == input[i].vat by {
                assert(acc0[i].vat == p1[i].vat);
            }
            assert(merged_breakdown(entries@) == Some(Seq::<TaxBreakdownEntry>::empty()));
        }
        assert forall|t: int| 0 <= t < t1.len() implies item_has_tag(#[trigger] taxes2@[t], "tax"@) by {
            assert(taxes2@[t].tags == t1[t].tags);
        }
        assert forall|j: int| 0 <= j < d1.len() implies (#[trigger] discounts2@[j]).net_amount@ <= 0 by {
            assert(discounts2@[j].net_amount == d1[j].net_amount);
        }
        assert(merges_entries(entries@, tax_breakdown@, scale));
        if let Some(s) = scale {
            assert forall|i: int| 0 <= i < p1.len() implies fits_at((#[trigger] positions2@[i]).net_amount@ as int, s) by {
                assert(positions2@[i].net_amount == p1[i].net_amount);
            }
            assert forall|j: int| 0 <= j < d1.len() implies fits_at((#[trigger] discounts2@[j]).net_amount@ as int, s) by {
                assert(discounts2@[j].net_amount == d1[j].net_amount);
            }
            assert forall|t: int| 0 <= t < t1.len() implies fits_at((#[trigger] taxes2@[t]).net_amount@ as int, s) by {
                assert(taxes2@[t].net_amount == t1[t].net_amount);
            }
        }
    }
    let zero = Amount::<5>::zero();
    let d = BillingDocument::from_raw(
        DocumentParts {
            meta,
            net_positions: positions2,
            tax_positions: taxes2,
            discount_positions: discounts2,
            net_total,
            tax_total,
            gross_total,
            tax_breakdown,
            prepaid: zero,
            rounding: zero,
        },
    )?;
    proof {
        assert(same_but_vat_all(d.net_spec(), p1));
        assert(same_but_vat_all(d.discount_spec(), d1));
        assert(same_but_vat_all(d.tax_spec(), t1));
        lemma_layered(d, input, p1, d1, t1, acc0, tax_layers@, discounts@, scale);
    }
    Ok(d)
}

impl BillingDocument {
    /// Start a builder with default header data and nothing in it.
    pub fn builder() -> (b: BillingDocumentBuilder)
        ensures
            b.is_fresh(),
    {
        BillingDocumentBuilder::default()
    }

    /// Assemble a document from positions and layers at the engine's full
    /// precision: discount layers run over the positions, tax layers over
    /// positions, discounts and the tax positions before them, and every
    /// total is computed, so the document satisfies [`assembled`] and
    /// [`layered`]; a document that would fail [`BillingDocument::validate`]
    /// is refused with that check's error, so every document returned is
    /// valid.
    pub fn from_positions(
        meta: DocumentMeta,
        positions: Vec<LineItem>,
        tax_layers: Vec<Box<dyn TaxLayer>>,
        discounts: Vec<Box<dyn DiscountLayer>>,
    ) -> (r: Result<BillingDocument, BillingError>)
        ensures
            r matches Ok(d) ==> assembled(d, meta, positions@, tax_layers@.len() as int, discounts@.len() as int, None),
            r matches Ok(d) ==> layered(d, positions@, tax_layers@, discounts@, None) && d.doc_valid(),
            !all_valid(positions@) ==> (r matches Err(e) && (e is InvalidInput || e is MonetaryOverflow)),
            (tax_layers@.len() == 0 && discounts@.len() == 0) ==> (r is Ok <==> plain_ok(positions@, None)),
    {
        assemble(meta, positions, tax_layers, discounts, None)
    }
}

/// Pushing onto a sequence adds one to its length, for any element type.
proof fn lemma_push_len<A>(s: Seq<A>, a: A)
    ensures
        s.push(a).len() == s.len() + 1,
{
}

/// A fluent builder for [`BillingDocument`].
pub struct BillingDocumentBuilder {
    meta: DocumentMeta,
    positions: Vec<LineItem>,
    tax_layers: Vec<Box<dyn TaxLayer>>,
    discount_layers: Vec<Box<dyn DiscountLayer>>,
    amount_scale: Option<AmountScale>,
}

impl Default for BillingDocumentBuilder {
    fn default() -> (b: BillingDocumentBuilder)
        ensures
            b.is_fresh(),
    {
        BillingDocumentBuilder {
            meta: DocumentMeta::default(),
            positions: Vec::new(),
            tax_layers: Vec::new(),
            discount_layers: Vec::new(),
            amount_scale: None,
        }
    }
}

impl BillingDocumentBuilder {
    /// The header data.
    pub closed spec fn meta_spec(&self) -> DocumentMeta {
        self.meta
    }

    /// The positions collected so far.
    pub closed spec fn positions_spec(&self) -> Seq<LineItem> {
        self.positions@
    }

    /// The number of tax layers added.
    pub closed spec fn tax_count(&self) -> nat {
        self.tax_layers@.len()
    }

    /// The number of discount layers added.
    pub closed spec fn discount_count(&self) -> nat {
        self.discount_layers@.len()
    }

    /// The tax layers added, in order.
    pub closed spec fn tax_layers_spec(&self) -> Seq<Box<dyn TaxLayer>> {
        self.tax_layers@
    }

    /// The discount layers added, in order.
    pub closed spec fn discount_layers_spec(&self) -> Seq<Box<dyn DiscountLayer>> {
        self.discount_layers@
    }

    /// The scale the document will be assembled at, if any.
    pub closed spec fn scale_spec(&self) -> Option<AmountScale> {
        self.amount_scale
    }

    /// A builder as [`Default`] makes it: default header, no positions, no
    /// layers, no scale.
    pub open spec fn is_fresh(&self) -> bool {
        &&& self.meta_spec().invoice_number@.len() == 0
        &&& self.meta_spec().currency == crate::currency::Currency::xxx_spec()
        &&& self.meta_spec().labels@.len() == 0
        &&& self.positions_spec().len() == 0 && self.tax_count() == 0 && self.discount_count() == 0
        &&& self.scale_spec() is None
    }

    /// Replace the header data.
    pub fn meta(self, meta: DocumentMeta) -> (b: BillingDocumentBuilder)
        ensures
            b.meta_spec() == meta && b.positions_spec() == self.positions_spec(),
            b.tax_count() == self.tax_count() && b.discount_count() == self.discount_count(),
            b.scale_spec() == self.scale_spec(),
            b.tax_layers_spec() == self.tax_layers_spec() && b.discount_layers_spec() == self.discount_layers_spec(),
    {
        BillingDocumentBuilder { meta, ..self }
    }

    /// Set the currency of the header.
    pub fn currency(self, currency: crate::currency::Currency) -> (b: BillingDocumentBuilder)
        ensures
            b.meta_spec() == (DocumentMeta { currency, ..self.meta_spec() }),
            b.positions_spec() == self.positions_spec(),
            b.tax_count() == self.tax_count() && b.discount_count() == self.discount_count(),
            b.scale_spec() == self.scale_spec(),
            b.tax_layers_spec() == self.tax_layers_spec() && b.discount_layers_spec() == self.discount_layers_spec(),
    {
        let mut b = self;
        b.meta.currency = currency;
        b
    }

    /// Append positions.
    pub fn positions(self, positions: Vec<LineItem>) -> (b: BillingDocumentBuilder)
        ensures
            b.positions_spec() == self.positions_spec() + positions@,
            b.meta_spec() == self.meta_spec(),
            b.tax_count() == self.tax_count() && b.discount_count() == self.discount_count(),
            b.scale_spec() == self.scale_spec(),
            b.tax_layers_spec() == self.tax_layers_spec() && b.discount_layers_spec() == self.discount_layers_spec(),
    {
        let mut b = self;
        let mut more = positions;
        b.positions.append(&mut more);
        b
    }

    /// Append a tax layer.
    pub fn extra_tax(self, layer: Box<dyn TaxLayer>) -> (b: BillingDocumentBuilder)
        ensures
            b.tax_count() == self.tax_count() + 1,
            b.meta_spec() == self.meta_spec() && b.positions_spec() == self.positions_spec(),
            b.discount_count() == self.discount_count() && b.scale_spec() == self.scale_spec(),
            b.tax_layers_spec() == self.tax_layers_spec().push(layer),
            b.discount_layers_spec() == self.discount_layers_spec(),
    {
        let mut b = self;
        let ghost l0 = b.tax_layers@;
        b.tax_layers.push(layer);
        proof { lemma_push_len(l0, layer); }
        b
    }

    /// Append a discount layer.
    pub fn extra_discount(self, layer: Box<dyn DiscountLayer>) -> (b: BillingDocumentBuilder)
        ensures
            b.discount_count() == self.discount_count() + 1,
            b.meta_spec() == self.meta_spec() && b.positions_spec() == self.positions_spec(),
            b.tax_count() == self.tax_count() && b.scale_spec() == self.scale_spec(),
            b.discount_layers_spec() == self.discount_layers_spec().push(layer),
            b.tax_layers_spec() == self.tax_layers_spec(),
    {
        let mut b = self;
        let ghost l0 = b.discount_layers@;
        b.discount_layers.push(layer);
        proof { lemma_push_len(l0, layer); }
        b
    }

    /// Assemble every amount at `scale`: each position, layer output and
    /// breakdown entry is reduced before any total is computed.
    pub fn amount_scale(self, scale: AmountScale) -> (b: BillingDocumentBuilder)
        ensures
            b.scale_spec() == Some(scale),
            b.meta_spec() == self.meta_spec() && b.positions_spec() == self.positions_spec(),
            b.tax_count() == self.tax_count() && b.discount_count() == self.discount_count(),
            b.tax_layers_spec() == self.tax_layers_spec() && b.discount_layers_spec() == self.discount_layers_spec(),
    {
        BillingDocumentBuilder { amount_scale: Some(scale), ..self }
    }

    /// Replace positions and layers, keeping header and scale.
    pub(crate) fn replace_contents(
        self,
        positions: Vec<LineItem>,
        tax_layers: Vec<Box<dyn TaxLayer>>,
        discount_layers: Vec<Box<dyn DiscountLayer>>,
    ) -> (b: BillingDocumentBuilder)
        ensures
            b.meta_spec() == self.meta_spec() && b.scale_spec() == self.scale_spec(),
            b.positions_spec() == positions@,
            b.tax_count() == tax_layers@.len() && b.discount_count() == discount_layers@.len(),
            b.tax_layers_spec() == tax_layers@ && b.discount_layers_spec() == discount_layers@,
    {
        BillingDocumentBuilder { positions, tax_layers, discount_layers, ..self }
    }

    /// Assemble the document as [`BillingDocument::from_positions`] does, at
    /// the builder's scale: every document returned is valid.
    pub fn build(self) -> (r: Result<BillingDocument, BillingError>)
        ensures
            r matches Ok(d) ==> assembled(
                d,
                self.meta_spec(),
                self.positions_spec(),
                self.tax_count() as int,
                self.discount_count() as int,
                self.scale_spec(),
            ),
            r matches Ok(d) ==> layered(
                d,
                self.positions_spec(),
                self.tax_layers_spec(),
                self.discount_layers_spec(),
                self.scale_spec(),
            ) && d.doc_valid(),
            !all_valid(self.positions_spec()) ==> (r matches Err(e) && (e is InvalidInput || e is MonetaryOverflow)),
            (all_valid(self.positions_spec()) && !all_placeable(self.positions_spec(), self.scale_spec())) ==> (r matches Err(
                e,
            ) && e is MonetaryOverflow),
            (self.tax_count() == 0 && self.discount_count() == 0) ==> (r is Ok <==> plain_ok(
                self.positions_spec(),
                self.scale_spec(),
            )),
    {
        assemble(self.meta, self.positions, self.tax_layers, self.discount_layers, self.amount_scale)
    }
}

/// A document assembled without layers is consistent (it passes every check
/// of [`BillingDocument::validate`]) exactly when its positions stay valid
/// once placed; at full precision they always do.
#[verifier::rlimit(40)]
pub proof fn lemma_plain_assembly_valid(d: BillingDocument, meta: DocumentMeta, positions: Seq<LineItem>, scale: Option<AmountScale>)
    requires
        assembled(d, meta, positions, 0, 0, scale),
    ensures
        d.doc_valid() <==> forall|i: int| 0 <= i < positions.len() ==> item_valid(#[trigger] placed(positions[i], scale)),
{
    let net = d.net_spec();
    assert forall|i: int| 0 <= i < positions.len() implies #[trigger] net[i] == placed(positions[i], scale) by {
        assert(net[i].vat == positions[i].vat);
    }
    if forall|i: int| 0 <= i < positions.len() ==> item_valid(#[trigger] placed(positions[i], scale)) {
        lemma_plain_valid(d, positions, scale);
    }
    if d.doc_valid() {
        assert forall|i: int| 0 <= i < positions.len() implies item_valid(#[trigger] placed(positions[i], scale)) by {
            assert(item_valid(net[i]));
        }
    }
}

/// The checks of a document assembled without layers, given its placed
/// positions are valid.
proof fn lemma_plain_valid(d: BillingDocument, positions: Seq<LineItem>, scale: Option<AmountScale>)
    requires
        d.net_spec().len() == positions.len(),
        forall|i: int| 0 <= i < positions.len() ==> #[trigger] d.net_spec()[i] == placed(positions[i], scale),
        forall|i: int| 0 <= i < positions.len() ==> item_valid(#[trigger] placed(positions[i], scale)),
        d.discount_spec().len() == 0 && d.tax_spec().len() == 0 && d.breakdown_spec().len() == 0,
        d.totals_ok() && d.discount_total_ok() && d.payment_ok(),
    ensures
        d.doc_valid(),
{
    let net = d.net_spec();
    assert(net + d.discount_spec() =~= net);
    assert(d.breakdown_spec() =~= Seq::<TaxBreakdownEntry>::empty());
    assert(taxes(d.breakdown_spec()).take(0) =~= Seq::<Amount<5>>::empty());
    assert(taxes(d.breakdown_spec()) =~= Seq::<Amount<5>>::empty());
    assert(nets(d.tax_spec()) =~= Seq::<Amount<5>>::empty());
    assert forall|i: int| 0 <= i < net.len() implies item_valid(#[trigger] net[i]) by {
        assert(net[i] == placed(positions[i], scale));
    }
}

} // verus!
