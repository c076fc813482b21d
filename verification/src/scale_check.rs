//! Whether every monetary amount of a [`BillingDocument`] fits a number of
//! decimal places, and the first one that does not.
use vstd::prelude::*;

use crate::advance::{bases, group_index, sums_fit, taxes, AdvancePayment};
use crate::amount::{fits_scale_spec, raw_sum, Amount, AmountScale};
use crate::arith::fits_i64;
use crate::assembly::{assembled, entry_fits_at, fits_at, lemma_fits_closed, lemma_multiple_fits, merges_entries, nets_fit_at};
use crate::document::{
    charge_items, merge_step, merged_breakdown, nets, prepayment_advances, split_sums_fit, vat_items, vat_split,
    BillingDocument, DocumentMeta,
};
use crate::line_item::LineItem;
use crate::tax::item_has_tag;
use crate::text::{concat, debug_quoted, debug_text, nat_text, usize_text};
use crate::vat::{same_group, TaxBreakdownEntry};

verus! {

/// A labelled amount, by the label's characters.
pub open spec fn check_view(c: (String, Amount<5>)) -> (Seq<char>, Amount<5>) {
    (c.0@, c.1)
}

/// The label of position `i`: `position[i] "description"`.
pub open spec fn position_label(i: int, p: LineItem) -> Seq<char> {
    "position["@ + nat_text(i as nat) + "] "@ + debug_text(p.description@)
}

/// The amounts of the positions, in order: each net amount, followed by its
/// allowance/charge base where there is one.
pub open spec fn position_checks(ps: Seq<LineItem>) -> Seq<(Seq<char>, Amount<5>)>
    decreases ps.len(),
{
    if ps.len() == 0 {
        Seq::empty()
    } else {
        let i = ps.len() - 1;
        let p = ps.last();
        let rest = position_checks(ps.drop_last()).push((position_label(i, p), p.net_amount));
        match p.allowance_charge {
            Some(ac) => match ac.base_amount {
                Some(b) => rest.push((position_label(i, p) + " allowance/charge base (BT-93/BT-100)"@, b)),
                None => rest,
            },
            None => rest,
        }
    }
}

/// The stored totals and payment figures.
pub open spec fn total_checks(d: BillingDocument) -> Seq<(Seq<char>, Amount<5>)> {
    seq![
        ("net_total"@, d.net_total_spec()),
        ("tax_total"@, d.tax_total_spec()),
        ("gross_total (BT-112)"@, d.gross_total_spec()),
        ("discount_total (-BT-107)"@, d.discount_total_spec()),
        ("prepaid (BT-113)"@, d.prepaid_spec()),
        ("rounding (BT-114)"@, d.rounding_spec()),
    ]
}

/// One labelled amount where `ok`, none otherwise.
pub open spec fn check_if(ok: bool, label: Seq<char>, v: int) -> Seq<(Seq<char>, Amount<5>)> {
    if ok {
        seq![(label, Amount::<5>::from_raw_spec(v))]
    } else {
        Seq::empty()
    }
}

/// The derived totals, each where it can be formed.
pub open spec fn derived_checks(d: BillingDocument) -> Seq<(Seq<char>, Amount<5>)> {
    let charges = raw_sum(nets(charge_items(d.tax_spec())));
    check_if(sums_fit(nets(d.net_spec())), "line_total (BT-106)"@, raw_sum(nets(d.net_spec())))
        + check_if(split_sums_fit(d.tax_spec(), false), "charge_total (BT-108)"@, charges)
        + check_if(
        split_sums_fit(d.tax_spec(), false) && fits_i64(d.net_total_spec()@ + charges),
        "taxable_total (BT-109)"@,
        d.net_total_spec()@ + charges,
    ) + check_if(split_sums_fit(d.tax_spec(), true), "vat_total (BT-110)"@, raw_sum(nets(vat_items(d.tax_spec()))))
}

/// Each breakdown entry's base and tax.
pub open spec fn breakdown_checks(bd: Seq<TaxBreakdownEntry>) -> Seq<(Seq<char>, Amount<5>)>
    decreases bd.len(),
{
    if bd.len() == 0 {
        Seq::empty()
    } else {
        let i = bd.len() - 1;
        let label = "tax_breakdown["@ + nat_text(i as nat);
        breakdown_checks(bd.drop_last()).push((label + "].taxable_base (BT-116)"@, bd.last().taxable_base)).push(
            (label + "].tax_amount (BT-117)"@, bd.last().tax_amount),
        )
    }
}

/// The gross of an advance.
pub open spec fn advance_gross(a: AdvancePayment) -> int {
    raw_sum(bases(a.tax_spec())) + raw_sum(taxes(a.tax_spec()))
}

/// Each itemised advance's gross.
pub open spec fn advance_checks(adv: Seq<AdvancePayment>) -> Seq<(Seq<char>, Amount<5>)>
    decreases adv.len(),
{
    if adv.len() == 0 {
        Seq::empty()
    } else {
        advance_checks(adv.drop_last()).push(
            (
                "advance["@ + nat_text((adv.len() - 1) as nat) + "].gross"@,
                Amount::<5>::from_raw_spec(advance_gross(adv.last())),
            ),
        )
    }
}

/// Every amount a document carries into an interchange format, labelled, in
/// the order they are checked.
pub open spec fn scale_checks(d: BillingDocument) -> Seq<(Seq<char>, Amount<5>)> {
    position_checks(d.net_spec() + d.discount_spec() + d.tax_spec()) + total_checks(d) + derived_checks(d)
        + breakdown_checks(d.breakdown_spec()) + advance_checks(prepayment_advances(d.prepayment_spec()))
}

/// The index of the first amount that does not fit `scale` places.
pub open spec fn first_unfit(c: Seq<(Seq<char>, Amount<5>)>, scale: u8) -> Option<int>
    decreases c.len(),
{
    if c.len() == 0 {
        None
    } else {
        match first_unfit(c.drop_last(), scale) {
            Some(k) => Some(k),
            None => if !fits_scale_spec(c.last().1@ as int, 5, scale as nat) {
                Some(c.len() - 1)
            } else {
                None
            },
        }
    }
}

/// Every itemised advance's totals fit `i64` (its gross can be formed).
pub open spec fn advances_fit(d: BillingDocument) -> bool {
    forall|i: int| 0 <= i < prepayment_advances(d.prepayment_spec()).len() ==> (#[trigger] prepayment_advances(
        d.prepayment_spec(),
    )[i]).totals_fit()
}

fn push_check(checks: &mut Vec<(String, Amount<5>)>, label: String, a: Amount<5>)
    ensures
        final(checks)@.map_values(|c: (String, Amount<5>)| check_view(c)) == old(checks)@.map_values(
            |c: (String, Amount<5>)| check_view(c),
        ).push((label@, a)),
{
    let ghost before = checks@;
    checks.push((label, a));
    assert(checks@.map_values(|c: (String, Amount<5>)| check_view(c)) =~= before.map_values(
        |c: (String, Amount<5>)| check_view(c),
    ).push((label@, a)));
}

impl BillingDocument {
    /// The first amount that does not fit `scale` decimal places, with its
    /// label, in the order of [`scale_checks`]; `None` when every amount fits.
    pub fn amount_scale_violation(&self, scale: u8) -> (r: Option<(String, Amount<5>)>)
        requires
            advances_fit(*self),
        ensures
            match first_unfit(scale_checks(*self), scale) {
                None => r is None,
                Some(k) => r matches Some(c) && check_view(c) == scale_checks(*self)[k],
            },
    {
        let mut checks: Vec<(String, Amount<5>)> = Vec::new();
        let all = self.all_positions();
        let ghost ps = self.net_spec() + self.discount_spec() + self.tax_spec();
        let mut i: usize = 0;
        proof {
            reveal_strlit("position[");
            reveal_strlit("] ");
            assert(ps.take(0) =~= Seq::<LineItem>::empty());
        }
        while i < all.len()
            invariant
                i <= all@.len(),
                all@.len() == ps.len(),
                forall|k: int| 0 <= k < all@.len() ==> *(#[trigger] all@[k]) == ps[k],
                checks@.map_values(|c: (String, Amount<5>)| check_view(c)) == position_checks(ps.take(i as int)),
            decreases all.len() - i,
        {
            let p = all[i];
            assert(ps.take(i as int + 1).drop_last() =~= ps.take(i as int));
            assert(ps.take(i as int + 1).last() == *p);
            let a = concat("position[", usize_text(i).as_str());
            let b = concat(a.as_str(), "] ");
            let label = concat(b.as_str(), debug_quoted(p.description.as_str()).as_str());
            push_check(&mut checks, concat(label.as_str(), ""), p.net_amount);
            proof {
                reveal_strlit("");
                assert(label@ + ""@ =~= label@);
            }
            match &p.allowance_charge {
                Some(ac) => match ac.base_amount {
                    Some(base) => {
                        push_check(&mut checks, concat(label.as_str(), " allowance/charge base (BT-93/BT-100)"), base);
                    },
                    None => {},
                },
                None => {},
            }
            i = i + 1;
        }
        assert(ps.take(all@.len() as int) =~= ps);
        let ghost after_positions = checks@.map_values(|c: (String, Amount<5>)| check_view(c));
        push_check(&mut checks, concat("net_total", ""), self.net_total());
        push_check(&mut checks, concat("tax_total", ""), self.tax_total());
        push_check(&mut checks, concat("gross_total (BT-112)", ""), self.gross_total());
        push_check(&mut checks, concat("discount_total (-BT-107)", ""), self.discount_total());
        push_check(&mut checks, concat("prepaid (BT-113)", ""), self.prepaid());
        push_check(&mut checks, concat("rounding (BT-114)", ""), self.rounding());
        proof {
            reveal_strlit("");
            reveal_strlit("net_total");
            reveal_strlit("tax_total");
            reveal_strlit("gross_total (BT-112)");
            reveal_strlit("discount_total (-BT-107)");
            reveal_strlit("prepaid (BT-113)");
            reveal_strlit("rounding (BT-114)");
            assert(checks@.map_values(|c: (String, Amount<5>)| check_view(c)) =~= after_positions + total_checks(*self));
        }
        let ghost after_totals = checks@.map_values(|c: (String, Amount<5>)| check_view(c));
        if let Ok(x) = self.line_total() {
            proof { Amount::<5>::lemma_from_raw_spec(x); }
            push_check(&mut checks, concat("line_total (BT-106)", ""), x);
        }
        let ghost g1 = checks@.map_values(|c: (String, Amount<5>)| check_view(c));
        if let Ok(x) = self.charge_total() {
            proof { Amount::<5>::lemma_from_raw_spec(x); }
            push_check(&mut checks, concat("charge_total (BT-108)", ""), x);
        }
        let ghost g2 = checks@.map_values(|c: (String, Amount<5>)| check_view(c));
        if let Ok(x) = self.taxable_total() {
            proof { Amount::<5>::lemma_from_raw_spec(x); }
            push_check(&mut checks, concat("taxable_total (BT-109)", ""), x);
        }
        let ghost g3 = checks@.map_values(|c: (String, Amount<5>)| check_view(c));
        if let Ok(x) = self.vat_total() {
            proof { Amount::<5>::lemma_from_raw_spec(x); }
            push_check(&mut checks, concat("vat_total (BT-110)", ""), x);
        }
        proof {
            reveal_strlit("");
            reveal_strlit("line_total (BT-106)");
            reveal_strlit("charge_total (BT-108)");
            reveal_strlit("taxable_total (BT-109)");
            reveal_strlit("vat_total (BT-110)");
            let charges = raw_sum(nets(charge_items(self.tax_spec())));
            assert(g1 =~= after_totals + check_if(sums_fit(nets(self.net_spec())), "line_total (BT-106)"@, raw_sum(nets(self.net_spec()))));
            assert(g2 =~= g1 + check_if(split_sums_fit(self.tax_spec(), false), "charge_total (BT-108)"@, charges));
            assert(g3 =~= g2 + check_if(
                split_sums_fit(self.tax_spec(), false) && fits_i64(self.net_total_spec()@ + charges),
                "taxable_total (BT-109)"@,
                self.net_total_spec()@ + charges,
            ));
            assert(checks@.map_values(|c: (String, Amount<5>)| check_view(c)) =~= g3 + check_if(
                split_sums_fit(self.tax_spec(), true),
                "vat_total (BT-110)"@,
                raw_sum(nets(vat_items(self.tax_spec()))),
            ));
            assert(checks@.map_values(|c: (String, Amount<5>)| check_view(c)) =~= after_totals + derived_checks(*self));
        }
        let ghost after_derived = checks@.map_values(|c: (String, Amount<5>)| check_view(c));
        let bd = self.tax_breakdown();
        let mut e: usize = 0;
        proof {
            reveal_strlit("tax_breakdown[");
            reveal_strlit("].taxable_base (BT-116)");
            reveal_strlit("].tax_amount (BT-117)");
            assert(bd@.take(0) =~= Seq::<TaxBreakdownEntry>::empty());
        }
        while e < bd.len()
            invariant
                e <= bd@.len(),
                checks@.map_values(|c: (String, Amount<5>)| check_view(c)) == after_derived + breakdown_checks(
                    bd@.take(e as int),
                ),
            decreases bd.len() - e,
        {
            assert(bd@.take(e as int + 1).drop_last() =~= bd@.take(e as int));
            let label = concat("tax_breakdown[", usize_text(e).as_str());
            push_check(&mut checks, concat(label.as_str(), "].taxable_base (BT-116)"), bd[e].taxable_base);
            push_check(&mut checks, concat(label.as_str(), "].tax_amount (BT-117)"), bd[e].tax_amount);
            e = e + 1;
            assert(checks@.map_values(|c: (String, Amount<5>)| check_view(c)) =~= after_derived + breakdown_checks(
                bd@.take(e as int),
            ));
        }
        assert(bd@.take(bd@.len() as int) =~= bd@);
        let ghost after_breakdown = checks@.map_values(|c: (String, Amount<5>)| check_view(c));
        let adv = self.advances();
        let mut j: usize = 0;
        proof {
            reveal_strlit("advance[");
            reveal_strlit("].gross");
            assert(adv@.take(0) =~= Seq::<AdvancePayment>::empty());
            assert(adv@ == prepayment_advances(self.prepayment_spec()));
        }
        while j < adv.len()
            invariant
                j <= adv@.len(),
                adv@ == prepayment_advances(self.prepayment_spec()),
                advances_fit(*self),
                checks@.map_values(|c: (String, Amount<5>)| check_view(c)) == after_breakdown + advance_checks(
                    adv@.take(j as int),
                ),
            decreases adv.len() - j,
        {
            assert(adv@.take(j as int + 1).drop_last() =~= adv@.take(j as int));
            assert(adv@.take(j as int + 1).last() == adv@[j as int]);
            let g = adv[j].gross();
            proof { Amount::<5>::lemma_from_raw_spec(g); }
            let label = concat("advance[", usize_text(j).as_str());
            push_check(&mut checks, concat(label.as_str(), "].gross"), g);
            j = j + 1;
            assert(checks@.map_values(|c: (String, Amount<5>)| check_view(c)) =~= after_breakdown + advance_checks(
                adv@.take(j as int),
            ));
        }
        assert(adv@.take(adv@.len() as int) =~= adv@);
        let ghost all_checks = checks@.map_values(|c: (String, Amount<5>)| check_view(c));
        assert(all_checks =~= scale_checks(*self));
        first_violation(checks, scale)
    }

    /// Whether every amount of the document fits `scale` decimal places.
    pub fn fits_amount_scale(&self, scale: u8) -> (r: bool)
        requires
            advances_fit(*self),
        ensures
            r == (first_unfit(scale_checks(*self), scale) is None),
    {
        self.amount_scale_violation(scale).is_none()
    }
}

/// The first labelled amount that does not fit `scale` places.
fn first_violation(list: Vec<(String, Amount<5>)>, scale: u8) -> (r: Option<(String, Amount<5>)>)
    ensures
        ({
            let c = list@.map_values(|c: (String, Amount<5>)| check_view(c));
            match first_unfit(c, scale) {
                None => r is None,
                Some(k) => r matches Some(x) && check_view(x) == c[k],
            }
        }),
{
    let ghost c = list@.map_values(|c: (String, Amount<5>)| check_view(c));
    let ghost input = list@;
    let mut checks = list;
    let n = checks.len();
    let mut i: usize = 0;
    assert(c.take(0) =~= Seq::<(Seq<char>, Amount<5>)>::empty());
    while i < n
        invariant
            n == checks@.len(),
            input == checks@,
            input == list@,
            c == input.map_values(|c: (String, Amount<5>)| check_view(c)),
            i <= n,
            first_unfit(c.take(i as int), scale) is None,
        decreases n - i,
    {
        assert(c.take(i as int + 1).drop_last() =~= c.take(i as int));
        assert(c.take(i as int + 1).last() == c[i as int]);
        assert(c[i as int] == check_view(input[i as int]));
        if !checks[i].1.fits_scale(scale) {
            assert(first_unfit(c.take(i as int + 1), scale) == Some(i as int));
            proof { lemma_first_unfit_prefix(c, i as int + 1, scale); }
            let x = checks.remove(i);
            assert(x == input[i as int]);
            return Some(x);
        }
        i = i + 1;
    }
    assert(c.take(n as int) =~= c);
    None
}

proof fn lemma_first_unfit_prefix(c: Seq<(Seq<char>, Amount<5>)>, k: int, scale: u8)
    requires
        0 <= k <= c.len(),
        first_unfit(c.take(k), scale) is Some,
    ensures
        first_unfit(c, scale) == first_unfit(c.take(k), scale),
    decreases c.len() - k,
{
    if k < c.len() {
        assert(c.take(k + 1).drop_last() =~= c.take(k));
        lemma_first_unfit_prefix(c, k + 1, scale);
    } else {
        assert(c.take(k) =~= c);
    }
}

/// Every allowance/charge base amount of `items` fits the decimals of `s`.
pub open spec fn bases_fit_at(items: Seq<LineItem>, s: AmountScale) -> bool {
    forall|i: int| 0 <= i < items.len() ==> match (#[trigger] items[i]).allowance_charge {
        Some(ac) => match ac.base_amount {
            Some(b) => fits_at(b@ as int, s),
            None => true,
        },
        None => true,
    }
}

/// Zero fits every scale.
proof fn lemma_zero_fits(s: AmountScale)
    ensures
        fits_at(0, s),
{
    if s.spec_decimals() < 5 {
        lemma_multiple_fits(0, s);
    }
}

/// A sum of amounts that fit a scale fits it.
proof fn lemma_sum_fits(xs: Seq<Amount<5>>, s: AmountScale)
    requires
        forall|i: int| 0 <= i < xs.len() ==> fits_at((#[trigger] xs[i])@ as int, s),
    ensures
        fits_at(raw_sum(xs), s),
    decreases xs.len(),
{
    if xs.len() == 0 {
        lemma_zero_fits(s);
    } else {
        let init = xs.drop_last();
        assert forall|i: int| 0 <= i < init.len() implies fits_at((#[trigger] init[i])@ as int, s) by {
            assert(init[i] == xs[i]);
        }
        lemma_sum_fits(init, s);
        assert(fits_at(xs[xs.len() - 1]@ as int, s));
        lemma_fits_closed(raw_sum(init), xs.last()@ as int, s);
    }
}

/// The summed net amounts of positions that fit a scale fit it.
proof fn lemma_nets_sum_fits(items: Seq<LineItem>, s: AmountScale)
    requires
        nets_fit_at(items, s),
    ensures
        fits_at(raw_sum(nets(items)), s),
{
    assert forall|i: int| 0 <= i < nets(items).len() implies fits_at((#[trigger] nets(items)[i])@ as int, s) by {
        assert(nets(items)[i] == items[i].net_amount);
    }
    lemma_sum_fits(nets(items), s);
}

/// The VAT (or non-VAT) positions of positions that fit a scale fit it.
proof fn lemma_split_fits(items: Seq<LineItem>, vat: bool, s: AmountScale)
    requires
        nets_fit_at(items, s),
    ensures
        nets_fit_at(vat_split(items, vat), s),
    decreases items.len(),
{
    if items.len() > 0 {
        let init = items.drop_last();
        assert forall|i: int| 0 <= i < init.len() implies fits_at((#[trigger] init[i]).net_amount@ as int, s) by {
            assert(init[i] == items[i]);
        }
        lemma_split_fits(init, vat, s);
        let rest = vat_split(init, vat);
        assert(fits_at(items[items.len() - 1].net_amount@ as int, s));
        if item_has_tag(items.last(), "vat"@) == vat {
            let r = rest.push(items.last());
            assert forall|i: int| 0 <= i < r.len() implies fits_at((#[trigger] r[i]).net_amount@ as int, s) by {
                if i < rest.len() {
                    assert(r[i] == rest[i]);
                }
            }
        }
    }
}

/// Where some entry of `res` is in the group of `e`, a first one is.
proof fn lemma_first_in_group(res: Seq<TaxBreakdownEntry>, e: TaxBreakdownEntry, j: int)
    requires
        0 <= j < res.len(),
        same_group(res[j], e),
    ensures
        exists|i: int| 0 <= i < res.len() && same_group(res[i], e) && forall|k: int| 0 <= k < i ==> !same_group(#[trigger] res[k], e),
    decreases j,
{
    if exists|k: int| 0 <= k < j && same_group(res[k], e) {
        let k = choose|k: int| 0 <= k < j && same_group(res[k], e);
        lemma_first_in_group(res, e, k);
    } else {
        assert forall|k: int| 0 <= k < j implies !same_group(#[trigger] res[k], e) by {}
    }
}

/// Merging entries that fit a scale yields entries that fit it.
proof fn lemma_merged_fits(e: Seq<TaxBreakdownEntry>, s: AmountScale)
    requires
        forall|k: int| 0 <= k < e.len() ==> entry_fits_at(#[trigger] e[k], s),
        merged_breakdown(e) is Some,
    ensures
        forall|k: int| 0 <= k < merged_breakdown(e)->0.len() ==> entry_fits_at(#[trigger] merged_breakdown(e)->0[k], s),
    decreases e.len(),
{
    if e.len() > 0 {
        let init = e.drop_last();
        assert forall|k: int| 0 <= k < init.len() implies entry_fits_at(#[trigger] init[k], s) by {
            assert(init[k] == e[k]);
        }
        lemma_merged_fits(init, s);
        let m0 = merged_breakdown(init)->0;
        let last = e.last();
        assert(entry_fits_at(e[e.len() - 1], s));
        let m = merged_breakdown(e)->0;
        assert(merge_step(m0, last) == Some(m));
        match group_index(m0, last) {
            None => {
                assert forall|k: int| 0 <= k < m.len() implies entry_fits_at(#[trigger] m[k], s) by {
                    if k < m0.len() {
                        assert(m[k] == m0[k]);
                    }
                }
            },
            Some(i) => {
                let w = choose|w: int| 0 <= w < m0.len() && same_group(m0[w], last);
                lemma_first_in_group(m0, last, w);
                assert(0 <= i < m0.len());
                let x = m0[i];
                assert(entry_fits_at(m0[i], s));
                let base = x.taxable_base@ + last.taxable_base@;
                let tax = x.tax_amount@ + last.tax_amount@;
                lemma_fits_closed(x.taxable_base@ as int, last.taxable_base@ as int, s);
                lemma_fits_closed(x.tax_amount@ as int, last.tax_amount@ as int, s);
                Amount::<5>::lemma_raw_of(base);
                Amount::<5>::lemma_raw_of(tax);
                assert forall|k: int| 0 <= k < m.len() implies entry_fits_at(#[trigger] m[k], s) by {
                    if k != i {
                        assert(m[k] == m0[k]);
                    }
                }
            },
        }
    }
}

/// The labelled amounts of positions whose net amounts and allowance/charge
/// bases fit a scale all fit it.
proof fn lemma_position_checks_fit(ps: Seq<LineItem>, s: AmountScale)
    requires
        nets_fit_at(ps, s),
        bases_fit_at(ps, s),
    ensures
        forall|k: int| 0 <= k < position_checks(ps).len() ==> fits_at((#[trigger] position_checks(ps)[k]).1@ as int, s),
    decreases ps.len(),
{
    if ps.len() > 0 {
        let init = ps.drop_last();
        assert forall|i: int| 0 <= i < init.len() implies fits_at((#[trigger] init[i]).net_amount@ as int, s) by {
            assert(init[i] == ps[i]);
        }
        assert forall|i: int| 0 <= i < init.len() implies match (#[trigger] init[i]).allowance_charge {
            Some(ac) => match ac.base_amount {
                Some(b) => fits_at(b@ as int, s),
                None => true,
            },
            None => true,
        } by {
            assert(init[i] == ps[i]);
        }
        lemma_position_checks_fit(init, s);
        let p = ps.last();
        assert(p == ps[ps.len() - 1]);
        let rest = position_checks(init).push((position_label(ps.len() - 1, p), p.net_amount));
        assert forall|k: int| 0 <= k < rest.len() implies fits_at((#[trigger] rest[k]).1@ as int, s) by {
            if k < position_checks(init).len() {
                assert(rest[k] == position_checks(init)[k]);
            }
        }
        let all = position_checks(ps);
        assert forall|k: int| 0 <= k < all.len() implies fits_at((#[trigger] all[k]).1@ as int, s) by {
            if k < rest.len() {
                assert(all[k] == rest[k]);
            }
        }
    }
}

/// The labelled amounts of breakdown entries that fit a scale all fit it.
proof fn lemma_breakdown_checks_fit(bd: Seq<TaxBreakdownEntry>, s: AmountScale)
    requires
        forall|k: int| 0 <= k < bd.len() ==> entry_fits_at(#[trigger] bd[k], s),
    ensures
        forall|k: int| 0 <= k < breakdown_checks(bd).len() ==> fits_at((#[trigger] breakdown_checks(bd)[k]).1@ as int, s),
    decreases bd.len(),
{
    if bd.len() > 0 {
        let init = bd.drop_last();
        assert forall|k: int| 0 <= k < init.len() implies entry_fits_at(#[trigger] init[k], s) by {
            assert(init[k] == bd[k]);
        }
        lemma_breakdown_checks_fit(init, s);
        assert(entry_fits_at(bd[bd.len() - 1], s));
        let all = breakdown_checks(bd);
        let prev = breakdown_checks(init);
        assert forall|k: int| 0 <= k < all.len() implies fits_at((#[trigger] all[k]).1@ as int, s) by {
            if k < prev.len() {
                assert(all[k] == prev[k]);
            }
        }
    }
}

/// A labelled amount formed only where it fits `i64` and the scale fits the
/// scale.
proof fn lemma_check_if_fits(ok: bool, label: Seq<char>, v: int, s: AmountScale)
    requires
        ok ==> fits_i64(v) && fits_at(v, s),
    ensures
        forall|k: int| 0 <= k < check_if(ok, label, v).len() ==> fits_at((#[trigger] check_if(ok, label, v)[k]).1@ as int, s),
{
    if ok {
        Amount::<5>::lemma_raw_of(v);
    }
}

/// Two lists of labelled amounts that fit a scale, one after the other, fit
/// it.
proof fn lemma_concat_fits(a: Seq<(Seq<char>, Amount<5>)>, b: Seq<(Seq<char>, Amount<5>)>, s: AmountScale)
    requires
        forall|k: int| 0 <= k < a.len() ==> fits_at((#[trigger] a[k]).1@ as int, s),
        forall|k: int| 0 <= k < b.len() ==> fits_at((#[trigger] b[k]).1@ as int, s),
    ensures
        forall|k: int| 0 <= k < (a + b).len() ==> fits_at((#[trigger] (a + b)[k]).1@ as int, s),
{
    assert forall|k: int| 0 <= k < (a + b).len() implies fits_at((#[trigger] (a + b)[k]).1@ as int, s) by {
        if k < a.len() {
            assert((a + b)[k] == a[k]);
        } else {
            assert((a + b)[k] == b[k - a.len()]);
        }
    }
}

/// No amount of a list that all fit a scale is reported as not fitting.
proof fn lemma_first_unfit_none(c: Seq<(Seq<char>, Amount<5>)>, s: AmountScale)
    requires
        forall|k: int| 0 <= k < c.len() ==> fits_at((#[trigger] c[k]).1@ as int, s),
    ensures
        first_unfit(c, s.spec_decimals()) is None,
    decreases c.len(),
{
    if c.len() > 0 {
        let init = c.drop_last();
        assert forall|k: int| 0 <= k < init.len() implies fits_at((#[trigger] init[k]).1@ as int, s) by {
            assert(init[k] == c[k]);
        }
        lemma_first_unfit_none(init, s);
        assert(fits_at(c[c.len() - 1].1@ as int, s));
    }
}

/// The breakdown of a document assembled at a scale fits it.
proof fn lemma_assembled_breakdown_fits(
    d: BillingDocument,
    meta: DocumentMeta,
    positions: Seq<LineItem>,
    nt: int,
    nd: int,
    s: AmountScale,
)
    requires
        assembled(d, meta, positions, nt, nd, Some(s)),
    ensures
        forall|k: int| 0 <= k < breakdown_checks(d.breakdown_spec()).len() ==> fits_at(
            (#[trigger] breakdown_checks(d.breakdown_spec())[k]).1@ as int,
            s,
        ),
{
    let e = choose|e: Seq<TaxBreakdownEntry>| #[trigger] merges_entries(e, d.breakdown_spec(), Some(s));
    assert(merges_entries(e, d.breakdown_spec(), Some(s)));
    lemma_merged_fits(e, s);
    let bd = d.breakdown_spec();
    let m = merged_breakdown(e)->0;
    assert(m == bd);
    assert forall|k: int| 0 <= k < bd.len() implies entry_fits_at(#[trigger] bd[k], s) by {
        assert(entry_fits_at(m[k], s));
    }
    lemma_breakdown_checks_fit(bd, s);
}

/// The positions of a document assembled at a scale, whose allowance/charge
/// bases fit it, fit it.
proof fn lemma_assembled_positions_fit(
    d: BillingDocument,
    meta: DocumentMeta,
    positions: Seq<LineItem>,
    nt: int,
    nd: int,
    s: AmountScale,
)
    requires
        assembled(d, meta, positions, nt, nd, Some(s)),
        bases_fit_at(d.net_spec() + d.discount_spec() + d.tax_spec(), s),
    ensures
        nets_fit_at(d.net_spec() + d.discount_spec() + d.tax_spec(), s),
        nets_fit_at(d.net_spec() + d.discount_spec(), s),
        forall|k: int| 0 <= k < position_checks(d.net_spec() + d.discount_spec() + d.tax_spec()).len() ==> fits_at(
            (#[trigger] position_checks(d.net_spec() + d.discount_spec() + d.tax_spec())[k]).1@ as int,
            s,
        ),
{
    let net = d.net_spec();
    let disc = d.discount_spec();
    let tax = d.tax_spec();
    let all = net + disc + tax;
    assert forall|i: int| 0 <= i < all.len() implies fits_at((#[trigger] all[i]).net_amount@ as int, s) by {
        if i < net.len() {
            assert(all[i] == net[i]);
        } else if i < net.len() + disc.len() {
            assert(all[i] == disc[i - net.len()]);
        } else {
            assert(all[i] == tax[i - net.len() - disc.len()]);
        }
    }
    let nd_all = net + disc;
    assert forall|i: int| 0 <= i < nd_all.len() implies fits_at((#[trigger] nd_all[i]).net_amount@ as int, s) by {
        if i < net.len() {
            assert(nd_all[i] == net[i]);
        } else {
            assert(nd_all[i] == disc[i - net.len()]);
        }
    }
    lemma_position_checks_fit(all, s);
}

/// The stored and derived totals of a document assembled at a scale fit it.
proof fn lemma_assembled_totals_fit(
    d: BillingDocument,
    meta: DocumentMeta,
    positions: Seq<LineItem>,
    nt: int,
    nd: int,
    s: AmountScale,
)
    requires
        assembled(d, meta, positions, nt, nd, Some(s)),
        nets_fit_at(d.net_spec() + d.discount_spec(), s),
    ensures
        forall|k: int| 0 <= k < total_checks(d).len() ==> fits_at((#[trigger] total_checks(d)[k]).1@ as int, s),
        forall|k: int| 0 <= k < derived_checks(d).len() ==> fits_at((#[trigger] derived_checks(d)[k]).1@ as int, s),
{
    let net = d.net_spec();
    let disc = d.discount_spec();
    let tax = d.tax_spec();
    lemma_nets_sum_fits(net + disc, s);
    lemma_nets_sum_fits(tax, s);
    lemma_nets_sum_fits(net, s);
    lemma_nets_sum_fits(disc, s);
    lemma_fits_closed(d.net_total_spec()@ as int, d.tax_total_spec()@ as int, s);
    lemma_zero_fits(s);
    let tc = total_checks(d);
    assert forall|k: int| 0 <= k < tc.len() implies fits_at((#[trigger] tc[k]).1@ as int, s) by {}
    lemma_split_fits(tax, true, s);
    lemma_split_fits(tax, false, s);
    lemma_nets_sum_fits(vat_items(tax), s);
    lemma_nets_sum_fits(charge_items(tax), s);
    let charges = raw_sum(nets(charge_items(tax)));
    lemma_fits_closed(d.net_total_spec()@ as int, charges, s);
    let ln = nets(net);
    assert(ln.take(ln.len() as int) =~= ln);
    assert(tax.take(tax.len() as int) =~= tax);
    let c1 = check_if(sums_fit(ln), "line_total (BT-106)"@, raw_sum(ln));
    let c2 = check_if(split_sums_fit(tax, false), "charge_total (BT-108)"@, charges);
    let c3 = check_if(
        split_sums_fit(tax, false) && fits_i64(d.net_total_spec()@ + charges),
        "taxable_total (BT-109)"@,
        d.net_total_spec()@ + charges,
    );
    let c4 = check_if(split_sums_fit(tax, true), "vat_total (BT-110)"@, raw_sum(nets(vat_items(tax))));
    lemma_check_if_fits(sums_fit(ln), "line_total (BT-106)"@, raw_sum(ln), s);
    lemma_check_if_fits(split_sums_fit(tax, false), "charge_total (BT-108)"@, charges, s);
    lemma_check_if_fits(
        split_sums_fit(tax, false) && fits_i64(d.net_total_spec()@ + charges),
        "taxable_total (BT-109)"@,
        d.net_total_spec()@ + charges,
        s,
    );
    lemma_check_if_fits(split_sums_fit(tax, true), "vat_total (BT-110)"@, raw_sum(nets(vat_items(tax))), s);
    lemma_concat_fits(c1, c2, s);
    lemma_concat_fits(c1 + c2, c3, s);
    lemma_concat_fits(c1 + c2 + c3, c4, s);
}

/// A document assembled at a scale, whose allowance/charge base amounts fit
/// that scale, carries no other amount that does not fit it: every position,
/// total, derived total and breakdown entry fits, and
/// [`BillingDocument::amount_scale_violation`] finds nothing to report.
pub proof fn lemma_scaled_assembly_fits(
    d: BillingDocument,
    meta: DocumentMeta,
    positions: Seq<LineItem>,
    nt: int,
    nd: int,
    s: AmountScale,
)
    requires
        assembled(d, meta, positions, nt, nd, Some(s)),
        bases_fit_at(d.net_spec() + d.discount_spec() + d.tax_spec(), s),
    ensures
        advances_fit(d),
        first_unfit(scale_checks(d), s.spec_decimals()) is None,
{
    assert(prepayment_advances(d.prepayment_spec()) =~= Seq::<AdvancePayment>::empty());
    lemma_assembled_positions_fit(d, meta, positions, nt, nd, s);
    lemma_assembled_totals_fit(d, meta, positions, nt, nd, s);
    lemma_assembled_breakdown_fits(d, meta, positions, nt, nd, s);
    let c = scale_checks(d);
    let pc = position_checks(d.net_spec() + d.discount_spec() + d.tax_spec());
    let tc = total_checks(d);
    let dc = derived_checks(d);
    let bc = breakdown_checks(d.breakdown_spec());
    assert(advance_checks(prepayment_advances(d.prepayment_spec())) =~= Seq::<(Seq<char>, Amount<5>)>::empty());
    assert(c =~= pc + tc + dc + bc);
    lemma_concat_fits(pc, tc, s);
    lemma_concat_fits(pc + tc, dc, s);
    lemma_concat_fits(pc + tc + dc, bc, s);
    lemma_first_unfit_none(c, s);
}

} // verus!
