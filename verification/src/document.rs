//! [`BillingDocument`] — positions, totals and VAT breakdown of one invoice,
//! with the checks that keep them consistent.
use vstd::prelude::*;

use crate::advance::{
    advance_entries, advance_grosses, advance_taxes, checked_total, entry_valid, group_index, residual_breakdown, sums_fit,
    taxes, AdvancePayment, DocumentKind, Prepayment,
};
use crate::amount::{raw_sum, Amount};
use crate::arith::fits_i64;
use crate::currency::Currency;
use crate::error::BillingError;
use crate::line_item::{clone_entries, clone_item, clone_period, clone_text, LineItem, Sign};
use crate::period::Period;
use crate::settlement::CashRounding;
use crate::tax::item_has_tag;
use crate::text::{debug_quoted, join3, owned, str_eq, usize_text};
use vstd::string::StringExecFns;
use crate::decimal::{strip_zeros, Decimal};
use crate::vat::{clone_entry, group_text, same_group, LineVat, TaxBreakdownEntry, TaxCategory};

verus! {

/// Document-level header data.
#[derive(Debug, Clone, PartialEq, Eq)]
pub struct DocumentMeta {
    /// Invoice number.
    pub invoice_number: String,
    /// Document type code.
    pub kind: DocumentKind,
    /// Currency of every amount on the document.
    pub currency: Currency,
    /// Human-readable billing period label.
    pub period_label: String,
    /// The billing period.
    pub period: Option<Period>,
    /// Issue date.
    pub issue_date: Option<String>,
    /// Payment due date.
    pub due_date: Option<String>,
    /// Issuer identifier.
    pub issuer_id: Option<String>,
    /// Recipient identifier.
    pub recipient_id: Option<String>,
    /// Free-text notes.
    pub notes: Option<String>,
    /// Key/value labels.
    pub labels: Vec<(String, String)>,
}

impl Default for DocumentMeta {
    fn default() -> (m: DocumentMeta)
        ensures
            m.invoice_number@.len() == 0 && m.kind == DocumentKind::CommercialInvoice,
            m.currency == Currency::xxx_spec() && m.period_label@.len() == 0 && m.period is None,
            m.issue_date is None && m.due_date is None && m.issuer_id is None,
            m.recipient_id is None && m.notes is None && m.labels@.len() == 0,
    {
        DocumentMeta {
            invoice_number: String::new(),
            kind: DocumentKind::CommercialInvoice,
            currency: Currency::xxx(),
            period_label: String::new(),
            period: None,
            issue_date: None,
            due_date: None,
            issuer_id: None,
            recipient_id: None,
            notes: None,
            labels: Vec::new(),
        }
    }
}

/// A copy of header data: every field equal, the labels equal as a list.
pub(crate) fn clone_meta(m: &DocumentMeta) -> (r: DocumentMeta)
    ensures
        r == (DocumentMeta { labels: r.labels, ..*m }),
        r.labels@ == m.labels@,
{
    DocumentMeta {
        invoice_number: m.invoice_number.clone(),
        kind: m.kind,
        currency: m.currency,
        period_label: m.period_label.clone(),
        period: clone_period(&m.period),
        issue_date: clone_text(&m.issue_date),
        due_date: clone_text(&m.due_date),
        issuer_id: clone_text(&m.issuer_id),
        recipient_id: clone_text(&m.recipient_id),
        notes: clone_text(&m.notes),
        labels: clone_entries(&m.labels),
    }
}

/// The net amounts of positions, in order.
pub open spec fn nets(items: Seq<LineItem>) -> Seq<Amount<5>> {
    items.map_values(|p: LineItem| p.net_amount)
}

/// A position passes [`LineItem::validate`].
pub open spec fn item_valid(p: LineItem) -> bool {
    &&& p.rules_ok()
    &&& p.allowance_charge matches Some(ac) ==> ac.amount_ok(p.net_amount@ as int) == Some(true)
}

/// The positions tagged `vat` (`vat`), or those not tagged so, in order.
pub open spec fn vat_split(items: Seq<LineItem>, vat: bool) -> Seq<LineItem>
    decreases items.len(),
{
    if items.len() == 0 {
        Seq::empty()
    } else {
        let rest = vat_split(items.drop_last(), vat);
        if item_has_tag(items.last(), "vat"@) == vat {
            rest.push(items.last())
        } else {
            rest
        }
    }
}

/// Every running total of the net amounts of [`vat_split`] fits `i64`, taken
/// position by position.
pub open spec fn split_sums_fit(items: Seq<LineItem>, vat: bool) -> bool {
    forall|k: int| 0 <= k <= items.len() ==> fits_i64(#[trigger] raw_sum(nets(vat_split(items.take(k), vat))))
}

/// The positions tagged `vat`.
pub open spec fn vat_items(items: Seq<LineItem>) -> Seq<LineItem> {
    vat_split(items, true)
}

/// The positions not tagged `vat`.
pub open spec fn charge_items(items: Seq<LineItem>) -> Seq<LineItem> {
    vat_split(items, false)
}

/// No two breakdown entries fall into the same group.
pub open spec fn groups_distinct(b: Seq<TaxBreakdownEntry>) -> bool {
    forall|i: int, j: int| 0 <= j < i < b.len() ==> !same_group(#[trigger] b[j], #[trigger] b[i])
}

/// Sum the net amounts of `a` followed by `b`; `Err(MonetaryOverflow)`
/// exactly when a running total leaves `i64`.
pub(crate) fn sum_nets(a: &[LineItem], b: &[LineItem]) -> (r: Result<Amount<5>, BillingError>)
    ensures
        r is Ok <==> sums_fit(nets(a@ + b@)),
        r matches Ok(x) ==> x@ == raw_sum(nets(a@ + b@)),
        r matches Err(e) ==> e is MonetaryOverflow,
{
    let ghost all = nets(a@ + b@);
    let mut acc = Amount::<5>::zero();
    assert(all.take(0) =~= Seq::<Amount<5>>::empty());
    let mut i: usize = 0;
    while i < a.len()
        invariant
            i <= a.len(),
            all == nets(a@ + b@),
            all.len() == a.len() + b.len(),
            acc@ == raw_sum(all.take(i as int)),
            forall|k: int| 0 <= k <= i ==> fits_i64(#[trigger] raw_sum(all.take(k))),
        decreases a.len() - i,
    {
        let x = a[i].net_amount;
        assert(all[i as int] == x);
        assert(all.take(i as int + 1).drop_last() =~= all.take(i as int));
        assert(raw_sum(all.take(i as int + 1)) == acc@ + x@);
        match acc.checked_add(x) {
            Ok(s) => {
                acc = s;
            },
            Err(e) => {
                return Err(e);
            },
        }
        i = i + 1;
    }
    let mut j: usize = 0;
    while j < b.len()
        invariant
            j <= b.len(),
            all == nets(a@ + b@),
            all.len() == a.len() + b.len(),
            acc@ == raw_sum(all.take(a.len() + j)),
            forall|k: int| 0 <= k <= a.len() + j ==> fits_i64(#[trigger] raw_sum(all.take(k))),
        decreases b.len() - j,
    {
        let x = b[j].net_amount;
        assert(all[a.len() + j] == x);
        assert(all.take(a.len() + j + 1).drop_last() =~= all.take(a.len() + j));
        assert(raw_sum(all.take(a.len() + j + 1)) == acc@ + x@);
        match acc.checked_add(x) {
            Ok(s) => {
                acc = s;
            },
            Err(e) => {
                return Err(e);
            },
        }
        j = j + 1;
    }
    assert(all.take(a.len() + b.len()) =~= all);
    Ok(acc)
}

/// The net amounts of the positions tagged `vat` (`vat`) or not tagged so.
fn sum_tagged(items: &[LineItem], vat: bool) -> (r: Result<Amount<5>, BillingError>)
    ensures
        r is Ok <==> split_sums_fit(items@, vat),
        r matches Ok(x) ==> x@ == raw_sum(nets(vat_split(items@, vat))),
        r matches Err(e) ==> e is MonetaryOverflow,
{
    let mut acc = Amount::<5>::zero();
    let mut i: usize = 0;
    assert(items@.take(0) =~= Seq::<LineItem>::empty());
    while i < items.len()
        invariant
            i <= items.len(),
            acc@ == raw_sum(nets(vat_split(items@.take(i as int), vat))),
            forall|k: int| 0 <= k <= i ==> fits_i64(#[trigger] raw_sum(nets(vat_split(items@.take(k), vat)))),
        decreases items.len() - i,
    {
        let p = &items[i];
        let ghost prev = vat_split(items@.take(i as int), vat);
        assert(items@.take(i as int + 1).drop_last() =~= items@.take(i as int));
        assert(items@.take(i as int + 1).last() == *p);
        let tagged = p.has_tag("vat");
        proof {
            reveal_strlit("vat");
        }
        if tagged == vat {
            assert(vat_split(items@.take(i as int + 1), vat) == prev.push(*p));
            assert(nets(prev.push(*p)).drop_last() =~= nets(prev));
            assert(raw_sum(nets(prev.push(*p))) == acc@ + p.net_amount@);
            match acc.checked_add(p.net_amount) {
                Ok(s) => {
                    acc = s;
                },
                Err(e) => {
                    return Err(e);
                },
            }
        } else {
            assert(vat_split(items@.take(i as int + 1), vat) == prev);
        }
        i = i + 1;
    }
    assert(items@.take(items.len() as int) =~= items@);
    Ok(acc)
}

/// Merge one entry into a breakdown: a new group is appended; an existing
/// group adds base and tax and takes a reason it lacked. `None` when the
/// reasons conflict or a sum leaves `i64`.
pub open spec fn merge_step(merged: Seq<TaxBreakdownEntry>, e: TaxBreakdownEntry) -> Option<Seq<TaxBreakdownEntry>> {
    match group_index(merged, e) {
        None => Some(merged.push(e)),
        Some(i) => {
            let x = merged[i];
            let reason_conflict = x.exemption_reason is Some && e.exemption_reason is Some
                && x.exemption_reason->0@ != e.exemption_reason->0@;
            let code_conflict = x.exemption_reason_code is Some && e.exemption_reason_code is Some
                && x.exemption_reason_code->0@ != e.exemption_reason_code->0@;
            let base = x.taxable_base@ + e.taxable_base@;
            let tax = x.tax_amount@ + e.tax_amount@;
            if reason_conflict || code_conflict || !fits_i64(base) || !fits_i64(tax) {
                None
            } else {
                Some(merged.update(i, TaxBreakdownEntry {
                    exemption_reason: if x.exemption_reason is None { e.exemption_reason } else { x.exemption_reason },
                    exemption_reason_code: if x.exemption_reason_code is None {
                        e.exemption_reason_code
                    } else {
                        x.exemption_reason_code
                    },
                    taxable_base: Amount::<5>::from_raw_spec(base),
                    tax_amount: Amount::<5>::from_raw_spec(tax),
                    ..x
                }))
            }
        },
    }
}

/// Merge entries, in order, into one entry per group.
pub open spec fn merged_breakdown(entries: Seq<TaxBreakdownEntry>) -> Option<Seq<TaxBreakdownEntry>>
    decreases entries.len(),
{
    if entries.len() == 0 {
        Some(Seq::empty())
    } else {
        match merged_breakdown(entries.drop_last()) {
            None => None,
            Some(m) => merge_step(m, entries.last()),
        }
    }
}

/// Merge breakdown entries into one entry per (category, rate) group.
///
/// `Ok` exactly when [`merged_breakdown`] is defined, with its value;
/// conflicting reasons are `InvalidInput`, a sum leaving `i64` is
/// `MonetaryOverflow`.
pub fn merge_breakdown(entries: Vec<TaxBreakdownEntry>) -> (r: Result<Vec<TaxBreakdownEntry>, BillingError>)
    ensures
        r is Ok <==> merged_breakdown(entries@) is Some,
        r matches Ok(v) ==> v@ == merged_breakdown(entries@)->0,
        r matches Err(e) ==> (e is InvalidInput || e is MonetaryOverflow),
{
    let mut merged: Vec<TaxBreakdownEntry> = Vec::new();
    let mut k: usize = 0;
    assert(entries@.take(0) =~= Seq::<TaxBreakdownEntry>::empty());
    while k < entries.len()
        invariant
            k <= entries.len(),
            merged_breakdown(entries@.take(k as int)) == Some(merged@),
        decreases entries.len() - k,
    {
        let entry = &entries[k];
        assert(entries@.take(k as int + 1).drop_last() =~= entries@.take(k as int));
        assert(entries@.take(k as int + 1).last() == *entry);
        let mut j: usize = 0;
        let mut found: Option<usize> = None;
        while j < merged.len() && found.is_none()
            invariant
                j <= merged.len(),
                found matches Some(t) ==> t < merged.len() && same_group(merged@[t as int], *entry) && forall|u: int|
                    0 <= u < t ==> !same_group(#[trigger] merged@[u], *entry),
                found is None ==> forall|u: int| 0 <= u < j ==> !same_group(#[trigger] merged@[u], *entry),
            decreases merged.len() - j,
        {
            if merged[j].same_group_as(entry) {
                found = Some(j);
            }
            j = j + 1;
        }
        match found {
            None => {
                merged.push(clone_entry(entry));
            },
            Some(t) => {
                proof {
                    assert(group_index(merged@, *entry) == Some(t as int));
                }
                let x = clone_entry(&merged[t]);
                if let (Some(a), Some(b)) = (&x.exemption_reason, &entry.exemption_reason) {
                    if !str_eq(a.as_str(), b.as_str()) {
                        proof {
                            lemma_merge_none_extends(entries@, k as int + 1);
                        }
                        let mut reason = join3(
                            "VAT breakdown group ",
                            group_text(entry.category, entry.rate).as_str(),
                            " has conflicting exemption reasons: ",
                        );
                        reason.append(debug_quoted(a.as_str()).as_str());
                        reason.append(" and ");
                        reason.append(debug_quoted(b.as_str()).as_str());
                        return Err(BillingError::InvalidInput { reason });
                    }
                }
                if let (Some(a), Some(b)) = (&x.exemption_reason_code, &entry.exemption_reason_code) {
                    if !str_eq(a.as_str(), b.as_str()) {
                        proof {
                            lemma_merge_none_extends(entries@, k as int + 1);
                        }
                        let mut reason = join3(
                            "VAT breakdown group ",
                            group_text(entry.category, entry.rate).as_str(),
                            " has conflicting exemption reason codes: ",
                        );
                        reason.append(debug_quoted(a.as_str()).as_str());
                        reason.append(" and ");
                        reason.append(debug_quoted(b.as_str()).as_str());
                        return Err(BillingError::InvalidInput { reason });
                    }
                }
                let reason = if x.exemption_reason.is_none() {
                    clone_text(&entry.exemption_reason)
                } else {
                    clone_text(&x.exemption_reason)
                };
                let code = if x.exemption_reason_code.is_none() {
                    clone_text(&entry.exemption_reason_code)
                } else {
                    clone_text(&x.exemption_reason_code)
                };
                let base = match x.taxable_base.checked_add(entry.taxable_base) {
                    Ok(b) => b,
                    Err(e) => {
                        proof {
                            lemma_merge_none_extends(entries@, k as int + 1);
                        }
                        return Err(e);
                    },
                };
                let tax = match x.tax_amount.checked_add(entry.tax_amount) {
                    Ok(b) => b,
                    Err(e) => {
                        proof {
                            lemma_merge_none_extends(entries@, k as int + 1);
                        }
                        return Err(e);
                    },
                };
                proof {
                    Amount::<5>::lemma_from_raw_spec(base);
                    Amount::<5>::lemma_from_raw_spec(tax);
                }
                merged.set(
                    t,
                    TaxBreakdownEntry {
                        exemption_reason: reason,
                        exemption_reason_code: code,
                        taxable_base: base,
                        tax_amount: tax,
                        ..x
                    },
                );
            },
        }
        k = k + 1;
    }
    assert(entries@.take(entries.len() as int) =~= entries@);
    Ok(merged)
}

/// A failed merge of a prefix fails the whole.
proof fn lemma_merge_none_extends(entries: Seq<TaxBreakdownEntry>, k: int)
    requires
        0 <= k <= entries.len(),
        merged_breakdown(entries.take(k)) is None,
    ensures
        merged_breakdown(entries) is None,
    decreases entries.len() - k,
{
    if k < entries.len() {
        assert(entries.take(k + 1).drop_last() =~= entries.take(k));
        lemma_merge_none_extends(entries, k + 1);
    } else {
        assert(entries.take(k) =~= entries);
    }
}

/// The amount prepaid under a prepayment: `None` where a total leaves `i64`.
pub open spec fn prepayment_total(p: Prepayment) -> Option<int> {
    match p {
        Prepayment::Nothing => Some(0),
        Prepayment::Total(t) => Some(t@ as int),
        Prepayment::Itemised(v) => checked_total(advance_grosses(v@)),
    }
}

/// The breakdown tax lies between zero and the tax total (a part of it, with
/// the same sign).
pub open spec fn tax_within(breakdown_tax: int, tax_total: int) -> bool {
    if tax_total < 0 {
        breakdown_tax <= 0 && breakdown_tax >= tax_total
    } else {
        breakdown_tax >= 0 && breakdown_tax <= tax_total
    }
}

/// Every discount position has the sign opposite to the lines (or is zero):
/// a credit, unless the lines are negative (a reversed document).
pub open spec fn discount_signs_ok(discounts: Seq<LineItem>, lines_negative: bool) -> bool {
    forall|i: int| 0 <= i < discounts.len() ==> ((#[trigger] discounts[i]).net_amount@ == 0 || (
    discounts[i].net_amount@ > 0) == lines_negative)
}

/// The checks of the cash-rounding adjustment: with a rule, the adjustment is
/// what the rule adds to the amount payable.
pub open spec fn rounding_ok(rule: Option<CashRounding>, gross: int, prepaid: int, rounding: int) -> bool {
    match rule {
        None => true,
        Some(c) => {
            let payable = gross - prepaid;
            &&& fits_i64(payable)
            &&& fits_i64(c.rounded_raw(Amount::<5>::from_raw_spec(payable)))
            &&& fits_i64(c.rounded_raw(Amount::<5>::from_raw_spec(payable)) - payable)
            &&& rounding == c.rounded_raw(Amount::<5>::from_raw_spec(payable)) - payable
        },
    }
}

/// The rounding adjustment can be formed: without a rule always; with one,
/// the payable amount `gross − prepaid`, its rounding and the difference fit
/// `i64`.
pub open spec fn payable_rounds(rule: Option<CashRounding>, gross: int, prepaid: int) -> bool {
    match rule {
        None => true,
        Some(c) => {
            let payable = gross - prepaid;
            &&& fits_i64(payable)
            &&& fits_i64(c.rounded_raw(Amount::<5>::from_raw_spec(payable)))
            &&& fits_i64(c.rounded_raw(Amount::<5>::from_raw_spec(payable)) - payable)
        },
    }
}

/// `p` can be recorded on `d`: its advances can be deducted from the
/// breakdown, its total can be formed and is not negative, and the rounding
/// adjustment can be formed with it.
pub open spec fn prepayment_ok(d: BillingDocument, p: Prepayment) -> bool {
    &&& crate::advance::deduct_all(d.breakdown_spec(), advance_entries(prepayment_advances(p))) is Some
    &&& prepayment_total(p) matches Some(t) && t >= 0 && payable_rounds(
        d.cash_rounding_spec(),
        d.gross_total_spec()@ as int,
        t,
    )
}

/// `e` is a `ValidationFailed` error naming the check `name`.
pub open spec fn names_check(e: BillingError, name: Seq<char>) -> bool {
    e matches BillingError::ValidationFailed { check, .. } && check@ == name
}

/// Every position of `items` passes its own validation.
pub open spec fn all_items_valid(items: Seq<LineItem>) -> bool {
    forall|i: int| 0 <= i < items.len() ==> item_valid(#[trigger] items[i])
}

/// A billing document.
#[derive(Debug, Clone)]
pub struct BillingDocument {
    /// Header data.
    pub meta: DocumentMeta,
    net_positions: Vec<LineItem>,
    tax_positions: Vec<LineItem>,
    discount_positions: Vec<LineItem>,
    net_total: Amount<5>,
    tax_total: Amount<5>,
    gross_total: Amount<5>,
    discount_total: Amount<5>,
    tax_breakdown: Vec<TaxBreakdownEntry>,
    prepayment: Prepayment,
    prepaid: Amount<5>,
    rounding: Amount<5>,
    cash_rounding: Option<CashRounding>,
}

/// Every field of a document as stored, for reading one back: the totals
/// are as recorded, not recomputed.
pub struct BillingDocumentRepr {
    /// Header data.
    pub meta: DocumentMeta,
    /// The positions of the supply.
    pub net_positions: Vec<LineItem>,
    /// The tax positions.
    pub tax_positions: Vec<LineItem>,
    /// The discount positions.
    pub discount_positions: Vec<LineItem>,
    /// The stated net total.
    pub net_total: Amount<5>,
    /// The stated tax total.
    pub tax_total: Amount<5>,
    /// The stated gross total.
    pub gross_total: Amount<5>,
    /// The stated discount total.
    pub discount_total: Amount<5>,
    /// The VAT breakdown.
    pub tax_breakdown: Vec<TaxBreakdownEntry>,
    /// The prepayment.
    pub prepayment: Prepayment,
    /// The amount prepaid.
    pub prepaid: Amount<5>,
    /// The cash-rounding adjustment.
    pub rounding: Amount<5>,
    /// The cash-rounding rule.
    pub cash_rounding: Option<CashRounding>,
}

/// The parts a document is put together from, its totals stated.
pub(crate) struct DocumentParts {
    /// Header data.
    pub meta: DocumentMeta,
    /// The positions of the supply.
    pub net_positions: Vec<LineItem>,
    /// The tax positions.
    pub tax_positions: Vec<LineItem>,
    /// The discount positions.
    pub discount_positions: Vec<LineItem>,
    /// Positions plus discounts.
    pub net_total: Amount<5>,
    /// The tax positions' total.
    pub tax_total: Amount<5>,
    /// Net plus tax.
    pub gross_total: Amount<5>,
    /// The VAT breakdown.
    pub tax_breakdown: Vec<TaxBreakdownEntry>,
    /// The amount prepaid.
    pub prepaid: Amount<5>,
    /// The cash-rounding adjustment.
    pub rounding: Amount<5>,
}

impl BillingDocument {
    /// The header data.
    pub closed spec fn meta_spec(&self) -> DocumentMeta {
        self.meta
    }

    /// The positions of the supply.
    pub closed spec fn net_spec(&self) -> Seq<LineItem> {
        self.net_positions@
    }

    /// The tax positions.
    pub closed spec fn tax_spec(&self) -> Seq<LineItem> {
        self.tax_positions@
    }

    /// The discount positions.
    pub closed spec fn discount_spec(&self) -> Seq<LineItem> {
        self.discount_positions@
    }

    /// The stated net total.
    pub closed spec fn net_total_spec(&self) -> Amount<5> {
        self.net_total
    }

    /// The stated tax total.
    pub closed spec fn tax_total_spec(&self) -> Amount<5> {
        self.tax_total
    }

    /// The stated gross total.
    pub closed spec fn gross_total_spec(&self) -> Amount<5> {
        self.gross_total
    }

    /// The stated discount total.
    pub closed spec fn discount_total_spec(&self) -> Amount<5> {
        self.discount_total
    }

    /// The VAT breakdown.
    pub closed spec fn breakdown_spec(&self) -> Seq<TaxBreakdownEntry> {
        self.tax_breakdown@
    }

    /// The prepayment.
    pub closed spec fn prepayment_spec(&self) -> Prepayment {
        self.prepayment
    }

    /// The amount prepaid.
    pub closed spec fn prepaid_spec(&self) -> Amount<5> {
        self.prepaid
    }

    /// The cash-rounding adjustment.
    pub closed spec fn rounding_spec(&self) -> Amount<5> {
        self.rounding
    }

    /// The cash-rounding rule.
    pub closed spec fn cash_rounding_spec(&self) -> Option<CashRounding> {
        self.cash_rounding
    }

    /// Net, tax and gross totals agree with the positions: net is the sum of
    /// positions and discounts, tax the sum of tax positions, gross their sum.
    pub open spec fn totals_ok(&self) -> bool {
        &&& sums_fit(nets(self.net_spec() + self.discount_spec()))
        &&& raw_sum(nets(self.net_spec() + self.discount_spec())) == self.net_total_spec()@
        &&& sums_fit(nets(self.tax_spec())) && raw_sum(nets(self.tax_spec())) == self.tax_total_spec()@
        &&& self.net_total_spec()@ + self.tax_total_spec()@ == self.gross_total_spec()@
    }

    /// Every breakdown entry is valid, no two share a group, and their tax is
    /// a part of the tax total.
    pub open spec fn breakdown_ok(&self) -> bool {
        let bd = self.breakdown_spec();
        &&& forall|i: int| 0 <= i < bd.len() ==> entry_valid(#[trigger] bd[i])
        &&& groups_distinct(bd)
        &&& sums_fit(taxes(bd)) && tax_within(raw_sum(taxes(bd)), self.tax_total_spec()@ as int)
    }

    /// Discounts credit the lines: each is zero or of the sign opposite to the
    /// lines' total.
    pub open spec fn discount_signs_valid(&self) -> bool {
        sums_fit(nets(self.net_spec())) && discount_signs_ok(self.discount_spec(), raw_sum(nets(self.net_spec())) < 0)
    }

    /// Every position passes its own validation.
    pub open spec fn positions_ok(&self) -> bool {
        &&& forall|i: int| 0 <= i < self.net_spec().len() ==> item_valid(#[trigger] self.net_spec()[i])
        &&& forall|i: int| 0 <= i < self.discount_spec().len() ==> item_valid(#[trigger] self.discount_spec()[i])
        &&& forall|i: int| 0 <= i < self.tax_spec().len() ==> item_valid(#[trigger] self.tax_spec()[i])
    }

    /// The prepaid amount is what the prepayment states, not negative, and the
    /// rounding adjustment is what the cash-rounding rule asks for.
    pub open spec fn payment_ok(&self) -> bool {
        &&& prepayment_total(self.prepayment_spec()) == Some(self.prepaid_spec()@ as int)
        &&& self.prepaid_spec()@ >= 0
        &&& rounding_ok(
            self.cash_rounding_spec(),
            self.gross_total_spec()@ as int,
            self.prepaid_spec()@ as int,
            self.rounding_spec()@ as int,
        )
    }

    /// The discount total is the sum of the discounts.
    pub open spec fn discount_total_ok(&self) -> bool {
        sums_fit(nets(self.discount_spec())) && raw_sum(nets(self.discount_spec())) == self.discount_total_spec()@
    }

    /// VAT is charged exactly when there is a breakdown, and an out-of-scope
    /// group stands alone.
    pub open spec fn vat_presence_ok(&self) -> bool {
        let bd = self.breakdown_spec();
        &&& charges_vat(self.tax_spec()) == (bd.len() > 0)
        &&& bd.len() > 1 ==> forall|i: int| 0 <= i < bd.len() ==> (#[trigger] bd[i]).category != TaxCategory::OutOfScope
    }

    /// The error of a failing totals check: an overflow where a sum leaves
    /// `i64`, else the first of `net_total`, `tax_total`, `gross_total` that
    /// disagrees.
    pub open spec fn totals_error(&self, e: BillingError) -> bool {
        let all = nets(self.net_spec() + self.discount_spec());
        let tax = nets(self.tax_spec());
        if !sums_fit(all) {
            e is MonetaryOverflow
        } else if raw_sum(all) != self.net_total_spec()@ {
            names_check(e, "net_total"@)
        } else if !sums_fit(tax) {
            e is MonetaryOverflow
        } else if raw_sum(tax) != self.tax_total_spec()@ {
            names_check(e, "tax_total"@)
        } else if !fits_i64(self.net_total_spec()@ + self.tax_total_spec()@) {
            e is MonetaryOverflow
        } else {
            names_check(e, "gross_total"@)
        }
    }

    /// The error of a failing breakdown check: an entry's own error, a
    /// duplicate group (`tax_breakdown`), an overflow of the summed tax, or a
    /// summed tax outside the tax total (`tax_breakdown_total`).
    pub open spec fn breakdown_error(&self, e: BillingError) -> bool {
        let bd = self.breakdown_spec();
        let entries_ok = forall|i: int| 0 <= i < bd.len() ==> entry_valid(#[trigger] bd[i]);
        &&& e is InvalidInput || e is MonetaryOverflow || names_check(e, "tax_breakdown"@) || names_check(
            e,
            "tax_breakdown_total"@,
        )
        &&& entries_ok && !groups_distinct(bd) ==> names_check(e, "tax_breakdown"@)
        &&& !entries_ok && groups_distinct(bd) ==> (e is InvalidInput || e is MonetaryOverflow)
        &&& entries_ok && groups_distinct(bd) ==> if sums_fit(taxes(bd)) {
            names_check(e, "tax_breakdown_total"@)
        } else {
            e is MonetaryOverflow
        }
    }

    /// The error of a failing discount-sign check: an overflow of the lines'
    /// total, else `discount_positions`.
    pub open spec fn discount_signs_error(&self, e: BillingError) -> bool {
        if sums_fit(nets(self.net_spec())) {
            names_check(e, "discount_positions"@)
        } else {
            e is MonetaryOverflow
        }
    }

    /// The error of a failing position check: the first bucket holding an
    /// invalid position.
    pub open spec fn positions_error(&self, e: BillingError) -> bool {
        if !all_items_valid(self.net_spec()) {
            names_check(e, "net_positions"@)
        } else if !all_items_valid(self.discount_spec()) {
            names_check(e, "discount_positions"@)
        } else {
            names_check(e, "tax_positions"@)
        }
    }

    /// The error of a failing payment check: an overflow of the prepayment's
    /// total, else the first of `prepaid_vs_prepayment`, `prepaid`, `rounding`
    /// that fails (an overflow where the rounding cannot be formed).
    pub open spec fn payment_error(&self, e: BillingError) -> bool {
        let prepaid = self.prepaid_spec()@ as int;
        match prepayment_total(self.prepayment_spec()) {
            None => e is MonetaryOverflow,
            Some(t) => if t != prepaid {
                names_check(e, "prepaid_vs_prepayment"@)
            } else if prepaid < 0 {
                names_check(e, "prepaid"@)
            } else {
                e is MonetaryOverflow || names_check(e, "rounding"@)
            },
        }
    }

    /// The error of a failing discount-total check: an overflow of the sum,
    /// else `discount_total`.
    pub open spec fn discount_total_error(&self, e: BillingError) -> bool {
        if sums_fit(nets(self.discount_spec())) {
            names_check(e, "discount_total"@)
        } else {
            e is MonetaryOverflow
        }
    }

    /// The error of a failing VAT-presence check: `vat_breakdown_presence`
    /// where VAT positions and breakdown disagree, else `tax_breakdown` for an
    /// out-of-scope group beside others.
    pub open spec fn vat_presence_error(&self, e: BillingError) -> bool {
        if charges_vat(self.tax_spec()) != (self.breakdown_spec().len() > 0) {
            names_check(e, "vat_breakdown_presence"@)
        } else {
            names_check(e, "tax_breakdown"@)
        }
    }

    /// The error [`BillingDocument::validate`] reports: that of the first
    /// group of checks, in the order they run, that fails.
    pub open spec fn validation_error(&self, e: BillingError) -> bool {
        if !self.totals_ok() {
            self.totals_error(e)
        } else if !self.breakdown_ok() {
            self.breakdown_error(e)
        } else if !self.discount_signs_valid() {
            self.discount_signs_error(e)
        } else if !self.positions_ok() {
            self.positions_error(e)
        } else if !self.payment_ok() {
            self.payment_error(e)
        } else if !self.discount_total_ok() {
            self.discount_total_error(e)
        } else {
            self.vat_presence_error(e)
        }
    }

    /// Every consistency check of [`BillingDocument::validate`] holds.
    pub open spec fn doc_valid(&self) -> bool {
        &&& self.totals_ok()
        &&& self.breakdown_ok()
        &&& self.discount_signs_valid()
        &&& self.positions_ok()
        &&& self.payment_ok()
        &&& self.discount_total_ok()
        &&& self.vat_presence_ok()
    }

    /// The header data.
    pub(crate) fn header(&self) -> (r: &DocumentMeta)
        ensures
            *r == self.meta_spec(),
    {
        &self.meta
    }

    /// Take the document apart: header, positions, tax positions,
    /// discounts and breakdown.
    pub(crate) fn into_parts(self) -> (r: (DocumentMeta, Vec<LineItem>, Vec<LineItem>, Vec<LineItem>, Vec<TaxBreakdownEntry>))
        ensures
            r.0 == self.meta_spec() && r.1@ == self.net_spec() && r.2@ == self.tax_spec(),
            r.3@ == self.discount_spec() && r.4@ == self.breakdown_spec(),
    {
        (self.meta, self.net_positions, self.tax_positions, self.discount_positions, self.tax_breakdown)
    }

    /// The positions of the supply.
    pub fn net_positions(&self) -> (r: &[LineItem])
        ensures
            r@ == self.net_spec(),
    {
        self.net_positions.as_slice()
    }

    /// The tax positions.
    pub fn tax_positions(&self) -> (r: &[LineItem])
        ensures
            r@ == self.tax_spec(),
    {
        self.tax_positions.as_slice()
    }

    /// The discount positions.
    pub fn discount_positions(&self) -> (r: &[LineItem])
        ensures
            r@ == self.discount_spec(),
    {
        self.discount_positions.as_slice()
    }

    /// The tax positions tagged `vat`.
    pub fn vat_positions(&self) -> (r: Vec<&LineItem>)
        ensures
            r@.len() == vat_items(self.tax_spec()).len(),
            forall|i: int| 0 <= i < r@.len() ==> *(#[trigger] r@[i]) == vat_items(self.tax_spec())[i],
    {
        self.split_tax(true)
    }

    /// The tax positions not tagged `vat`: levies, surcharges and other charges.
    pub fn charge_positions(&self) -> (r: Vec<&LineItem>)
        ensures
            r@.len() == charge_items(self.tax_spec()).len(),
            forall|i: int| 0 <= i < r@.len() ==> *(#[trigger] r@[i]) == charge_items(self.tax_spec())[i],
    {
        self.split_tax(false)
    }

    fn split_tax(&self, vat: bool) -> (r: Vec<&LineItem>)
        ensures
            r@.len() == vat_split(self.tax_spec(), vat).len(),
            forall|i: int| 0 <= i < r@.len() ==> *(#[trigger] r@[i]) == vat_split(self.tax_spec(), vat)[i],
    {
        let items = &self.tax_positions;
        let mut r: Vec<&LineItem> = Vec::new();
        let mut i: usize = 0;
        assert(items@.take(0) =~= Seq::<LineItem>::empty());
        while i < items.len()
            invariant
                i <= items.len(),
                r@.len() == vat_split(items@.take(i as int), vat).len(),
                forall|k: int| 0 <= k < r@.len() ==> *(#[trigger] r@[k]) == vat_split(items@.take(i as int), vat)[k],
            decreases items.len() - i,
        {
            let p = &items[i];
            assert(items@.take(i as int + 1).drop_last() =~= items@.take(i as int));
            assert(items@.take(i as int + 1).last() == *p);
            proof {
                reveal_strlit("vat");
            }
            if p.has_tag("vat") == vat {
                r.push(p);
            }
            i = i + 1;
        }
        assert(items@.take(items.len() as int) =~= items@);
        r
    }

    /// The VAT positions' total; `Err(MonetaryOverflow)` where a running total
    /// leaves `i64`.
    pub fn vat_total(&self) -> (r: Result<Amount<5>, BillingError>)
        ensures
            r is Ok <==> split_sums_fit(self.tax_spec(), true),
            r matches Ok(x) ==> x@ == raw_sum(nets(vat_items(self.tax_spec()))),
            r matches Err(e) ==> e is MonetaryOverflow,
    {
        sum_tagged(self.tax_positions.as_slice(), true)
    }

    /// The other charges' total; `Err(MonetaryOverflow)` where a running total
    /// leaves `i64`.
    pub fn charge_total(&self) -> (r: Result<Amount<5>, BillingError>)
        ensures
            r is Ok <==> split_sums_fit(self.tax_spec(), false),
            r matches Ok(x) ==> x@ == raw_sum(nets(charge_items(self.tax_spec()))),
            r matches Err(e) ==> e is MonetaryOverflow,
    {
        sum_tagged(self.tax_positions.as_slice(), false)
    }

    /// The stated net total: positions plus discounts.
    pub fn net_total(&self) -> (r: Amount<5>)
        ensures
            r == self.net_total_spec(),
    {
        self.net_total
    }

    /// The positions' total without discounts; `Err(MonetaryOverflow)` where a
    /// running total leaves `i64`.
    pub fn line_total(&self) -> (r: Result<Amount<5>, BillingError>)
        ensures
            r is Ok <==> sums_fit(nets(self.net_spec())),
            r matches Ok(x) ==> x@ == raw_sum(nets(self.net_spec())),
            r matches Err(e) ==> e is MonetaryOverflow,
    {
        let none: Vec<LineItem> = Vec::new();
        assert(self.net_positions@ + none@ =~= self.net_positions@);
        sum_nets(self.net_positions.as_slice(), none.as_slice())
    }

    /// The net total plus the other charges.
    pub fn taxable_total(&self) -> (r: Result<Amount<5>, BillingError>)
        ensures
            r matches Ok(x) ==> x@ == self.net_total_spec()@ + raw_sum(nets(charge_items(self.tax_spec()))),
            r is Ok <==> (split_sums_fit(self.tax_spec(), false) && fits_i64(
                self.net_total_spec()@ + raw_sum(nets(charge_items(self.tax_spec()))),
            )),
            r matches Err(e) ==> e is MonetaryOverflow,
    {
        let c = self.charge_total()?;
        self.net_total.checked_add(c)
    }

    /// The stated tax total.
    pub fn tax_total(&self) -> (r: Amount<5>)
        ensures
            r == self.tax_total_spec(),
    {
        self.tax_total
    }

    /// The stated gross total.
    pub fn gross_total(&self) -> (r: Amount<5>)
        ensures
            r == self.gross_total_spec(),
    {
        self.gross_total
    }

    /// The document currency.
    pub fn currency(&self) -> (r: Currency)
        ensures
            r == self.meta_spec().currency,
    {
        self.meta.currency
    }

    /// The stated discount total.
    pub fn discount_total(&self) -> (r: Amount<5>)
        ensures
            r == self.discount_total_spec(),
    {
        self.discount_total
    }

    /// The VAT breakdown.
    pub fn tax_breakdown(&self) -> (r: &[TaxBreakdownEntry])
        ensures
            r@ == self.breakdown_spec(),
    {
        self.tax_breakdown.as_slice()
    }

    /// The amount prepaid.
    pub fn prepaid(&self) -> (r: Amount<5>)
        ensures
            r == self.prepaid_spec(),
    {
        self.prepaid
    }

    /// The prepayment.
    pub fn prepayment(&self) -> (r: &Prepayment)
        ensures
            *r == self.prepayment_spec(),
    {
        &self.prepayment
    }

    /// The itemised advances (none otherwise).
    pub fn advances(&self) -> (r: &[AdvancePayment])
        ensures
            match self.prepayment_spec() {
                Prepayment::Itemised(v) => r@ == v@,
                _ => r@.len() == 0,
            },
    {
        self.prepayment.advances()
    }

    /// The summed tax of the itemised advances (zero otherwise);
    /// `Err(MonetaryOverflow)` where it leaves `i64`.
    pub fn advance_tax_total(&self) -> (r: Result<Amount<5>, BillingError>)
        ensures
            match self.prepayment_spec() {
                Prepayment::Itemised(v) => match checked_total(advance_taxes(v@)) {
                    Some(x) => r matches Ok(a) && a@ == x,
                    None => (r matches Err(e) && e is MonetaryOverflow),
                },
                _ => r matches Ok(a) && a@ == 0,
            },
    {
        self.prepayment.tax_total()
    }

    /// The entries of the itemised advances merged into one line per group:
    /// the deduction table of a final invoice. `Ok` exactly when
    /// [`merged_breakdown`] of all the advances' entries is defined.
    pub fn advance_deductions(&self) -> (r: Result<Vec<TaxBreakdownEntry>, BillingError>)
        ensures
            r is Ok <==> merged_breakdown(advance_entries(prepayment_advances(self.prepayment_spec()))) is Some,
            r matches Ok(v) ==> Some(v@) == merged_breakdown(advance_entries(prepayment_advances(self.prepayment_spec()))),
            r matches Err(e) ==> (e is InvalidInput || e is MonetaryOverflow),
    {
        let adv = self.prepayment.advances();
        let ghost av = adv@;
        assert(av == prepayment_advances(self.prepayment_spec()));
        let mut entries: Vec<TaxBreakdownEntry> = Vec::new();
        let mut i: usize = 0;
        assert(av.take(0) =~= Seq::<AdvancePayment>::empty());
        while i < adv.len()
            invariant
                av == adv@,
                i <= adv@.len(),
                entries@ == advance_entries(av.take(i as int)),
            decreases adv.len() - i,
        {
            let tax = adv[i].tax();
            let ghost start = entries@;
            let mut j: usize = 0;
            while j < tax.len()
                invariant
                    j <= tax@.len(),
                    entries@ == start + tax@.take(j as int),
                decreases tax.len() - j,
            {
                entries.push(clone_entry(&tax[j]));
                j = j + 1;
                assert(entries@ =~= start + tax@.take(j as int));
            }
            assert(tax@.take(tax@.len() as int) =~= tax@);
            assert(av.take(i as int + 1).drop_last() =~= av.take(i as int));
            assert(av.take(i as int + 1).last() == av[i as int]);
            i = i + 1;
        }
        assert(av.take(av.len() as int) =~= av);
        merge_breakdown(entries)
    }

    /// The cash-rounding adjustment.
    pub fn rounding(&self) -> (r: Amount<5>)
        ensures
            r == self.rounding_spec(),
    {
        self.rounding
    }

    /// The cash-rounding rule.
    pub fn cash_rounding(&self) -> (r: Option<CashRounding>)
        ensures
            r == self.cash_rounding_spec(),
    {
        self.cash_rounding
    }

    /// Gross, less prepaid, plus the rounding adjustment;
    /// `Err(MonetaryOverflow)` where a step leaves `i64`.
    pub fn amount_due(&self) -> (r: Result<Amount<5>, BillingError>)
        ensures
            r is Ok <==> (fits_i64(self.gross_total_spec()@ - self.prepaid_spec()@) && fits_i64(
                self.gross_total_spec()@ - self.prepaid_spec()@ + self.rounding_spec()@,
            )),
            r matches Ok(x) ==> x@ == self.gross_total_spec()@ - self.prepaid_spec()@ + self.rounding_spec()@,
            r matches Err(e) ==> e is MonetaryOverflow,
    {
        let payable = self.gross_total.checked_sub(self.prepaid)?;
        payable.checked_add(self.rounding)
    }

    /// Every position: those of the supply, then discounts, then taxes.
    pub fn all_positions(&self) -> (r: Vec<&LineItem>)
        ensures
            r@.len() == self.net_spec().len() + self.discount_spec().len() + self.tax_spec().len(),
            forall|i: int| 0 <= i < r@.len() ==> *(#[trigger] r@[i]) == (self.net_spec() + self.discount_spec()
                + self.tax_spec())[i],
    {
        let ghost all = self.net_positions@ + self.discount_positions@ + self.tax_positions@;
        let mut r: Vec<&LineItem> = Vec::new();
        let mut i: usize = 0;
        while i < self.net_positions.len()
            invariant
                i <= self.net_positions.len(),
                all == self.net_positions@ + self.discount_positions@ + self.tax_positions@,
                r@.len() == i,
                forall|k: int| 0 <= k < r@.len() ==> *(#[trigger] r@[k]) == all[k],
            decreases self.net_positions.len() - i,
        {
            r.push(&self.net_positions[i]);
            i = i + 1;
        }
        let mut j: usize = 0;
        while j < self.discount_positions.len()
            invariant
                j <= self.discount_positions.len(),
                all == self.net_positions@ + self.discount_positions@ + self.tax_positions@,
                r@.len() == self.net_positions.len() + j,
                forall|k: int| 0 <= k < r@.len() ==> *(#[trigger] r@[k]) == all[k],
            decreases self.discount_positions.len() - j,
        {
            r.push(&self.discount_positions[j]);
            j = j + 1;
        }
        let mut t: usize = 0;
        while t < self.tax_positions.len()
            invariant
                t <= self.tax_positions.len(),
                all == self.net_positions@ + self.discount_positions@ + self.tax_positions@,
                r@.len() == self.net_positions.len() + self.discount_positions.len() + t,
                forall|k: int| 0 <= k < r@.len() ==> *(#[trigger] r@[k]) == all[k],
            decreases self.tax_positions.len() - t,
        {
            r.push(&self.tax_positions[t]);
            t = t + 1;
        }
        r
    }

    /// Every position carrying `tag`, in the order of [`BillingDocument::all_positions`].
    pub fn positions_by_tag(&self, tag: &str) -> (r: Vec<&LineItem>)
        ensures
            forall|i: int| 0 <= i < r@.len() ==> item_has_tag(*(#[trigger] r@[i]), tag@) && (self.net_spec()
                + self.discount_spec() + self.tax_spec()).contains(*r@[i]),
    {
        let all = self.all_positions();
        let mut r: Vec<&LineItem> = Vec::new();
        let mut i: usize = 0;
        while i < all.len()
            invariant
                i <= all.len(),
                all@.len() == self.net_spec().len() + self.discount_spec().len() + self.tax_spec().len(),
                forall|k: int| 0 <= k < all@.len() ==> *(#[trigger] all@[k]) == (self.net_spec() + self.discount_spec()
                    + self.tax_spec())[k],
                forall|k: int| 0 <= k < r@.len() ==> item_has_tag(*(#[trigger] r@[k]), tag@) && (self.net_spec()
                    + self.discount_spec() + self.tax_spec()).contains(*r@[k]),
            decreases all.len() - i,
        {
            let p = all[i];
            if p.has_tag(tag) {
                proof {
                    assert((self.net_spec() + self.discount_spec() + self.tax_spec())[i as int] == *p);
                }
                r.push(p);
            }
            i = i + 1;
        }
        r
    }

    /// The document the stored fields form, unchecked.
    pub closed spec fn document_of(r: BillingDocumentRepr) -> BillingDocument {
        BillingDocument {
            meta: r.meta,
            net_positions: r.net_positions,
            tax_positions: r.tax_positions,
            discount_positions: r.discount_positions,
            net_total: r.net_total,
            tax_total: r.tax_total,
            gross_total: r.gross_total,
            discount_total: r.discount_total,
            tax_breakdown: r.tax_breakdown,
            prepayment: r.prepayment,
            prepaid: r.prepaid,
            rounding: r.rounding,
            cash_rounding: r.cash_rounding,
        }
    }

    /// The document the stored fields form holds exactly those fields.
    pub proof fn lemma_document_of(r: BillingDocumentRepr)
        ensures
            ({
                let d = BillingDocument::document_of(r);
                &&& d.meta_spec() == r.meta && d.net_spec() == r.net_positions@
                &&& d.tax_spec() == r.tax_positions@ && d.discount_spec() == r.discount_positions@
                &&& d.net_total_spec() == r.net_total && d.tax_total_spec() == r.tax_total
                &&& d.gross_total_spec() == r.gross_total && d.discount_total_spec() == r.discount_total
                &&& d.breakdown_spec() == r.tax_breakdown@ && d.prepayment_spec() == r.prepayment
                &&& d.prepaid_spec() == r.prepaid && d.rounding_spec() == r.rounding
                &&& d.cash_rounding_spec() == r.cash_rounding
            }),
    {
    }

    /// Read a stored document back: `Ok` exactly when the document the
    /// fields form passes [`BillingDocument::validate`], with that
    /// validation's error otherwise.
    pub fn from_repr(r: BillingDocumentRepr) -> (res: Result<BillingDocument, BillingError>)
        ensures
            res is Ok <==> BillingDocument::document_of(r).doc_valid(),
            res matches Ok(d) ==> d == BillingDocument::document_of(r),
    {
        let doc = BillingDocument {
            meta: r.meta,
            net_positions: r.net_positions,
            tax_positions: r.tax_positions,
            discount_positions: r.discount_positions,
            net_total: r.net_total,
            tax_total: r.tax_total,
            gross_total: r.gross_total,
            discount_total: r.discount_total,
            tax_breakdown: r.tax_breakdown,
            prepayment: r.prepayment,
            prepaid: r.prepaid,
            rounding: r.rounding,
            cash_rounding: r.cash_rounding,
        };
        doc.validate()?;
        Ok(doc)
    }

    /// Check that the document is consistent, for a document known to be so:
    /// an inconsistent document is a programming error here, and the
    /// precondition rules it out.
    pub fn assert_valid(&self)
        requires
            self.doc_valid(),
    {
        let r = self.validate();
        assert(r is Ok);
    }

    /// Check every consistency rule of the document: `Ok` exactly when
    /// [`BillingDocument::doc_valid`] holds.
    ///
    /// A broken total, sign, duplicate group, position or prepayment rule is
    /// `ValidationFailed`; a total leaving `i64` is `MonetaryOverflow`; a
    /// breakdown entry failing its own validation reports that error.
    pub fn validate(&self) -> (r: Result<(), BillingError>)
        ensures
            r is Ok <==> self.doc_valid(),
            r matches Err(e) ==> (e is ValidationFailed || e is MonetaryOverflow || e is InvalidInput),
            r matches Err(e) ==> self.validation_error(e),
    {
        self.check_totals()?;
        self.check_breakdown()?;
        self.check_discount_signs()?;
        check_items(self.net_positions.as_slice(), "net_positions")?;
        check_items(self.discount_positions.as_slice(), "discount_positions")?;
        check_items(self.tax_positions.as_slice(), "tax_positions")?;
        self.check_payment()?;
        self.check_discount_total()?;
        self.check_vat_presence()
    }

    fn check_totals(&self) -> (r: Result<(), BillingError>)
        ensures
            r is Ok <==> self.totals_ok(),
            r matches Err(e) ==> (e is ValidationFailed || e is MonetaryOverflow),
            r matches Err(e) ==> self.totals_error(e),
    {
        let computed_net = sum_nets(self.net_positions.as_slice(), self.discount_positions.as_slice())?;
        if computed_net.to_raw() != self.net_total.to_raw() {
            return Err(mismatch("net_total", computed_net, self.net_total));
        }
        let none: Vec<LineItem> = Vec::new();
        assert(self.tax_positions@ + none@ =~= self.tax_positions@);
        let computed_tax = sum_nets(self.tax_positions.as_slice(), none.as_slice())?;
        if computed_tax.to_raw() != self.tax_total.to_raw() {
            return Err(mismatch("tax_total", computed_tax, self.tax_total));
        }
        let expected_gross = self.net_total.checked_add(self.tax_total)?;
        if expected_gross.to_raw() != self.gross_total.to_raw() {
            return Err(mismatch("gross_total", expected_gross, self.gross_total));
        }
        Ok(())
    }

    fn check_breakdown(&self) -> (r: Result<(), BillingError>)
        ensures
            r is Ok <==> self.breakdown_ok(),
            r matches Err(e) ==> (e is ValidationFailed || e is MonetaryOverflow || e is InvalidInput),
            r matches Err(e) ==> self.breakdown_error(e),
    {
        let n = self.tax_breakdown.len();
        let mut i: usize = 0;
        while i < n
            invariant
                i <= n,
                n == self.tax_breakdown.len(),
                forall|k: int| 0 <= k < i ==> entry_valid(#[trigger] self.tax_breakdown@[k]),
                forall|k: int, j: int| 0 <= j < k < i ==> !same_group(#[trigger] self.tax_breakdown@[j], #[trigger] self.tax_breakdown@[k]),
            decreases n - i,
        {
            self.tax_breakdown[i].validate()?;
            let mut j: usize = 0;
            while j < i
                invariant
                    j <= i < n,
                    n == self.tax_breakdown.len(),
                    forall|t: int| 0 <= t < j ==> !same_group(#[trigger] self.tax_breakdown@[t], self.tax_breakdown@[i as int]),
                decreases i - j,
            {
                if self.tax_breakdown[j].same_group_as(&self.tax_breakdown[i]) {
                    let mut actual = owned("duplicate group ");
                    let e = &self.tax_breakdown[i];
                    actual.append(group_text(e.category, e.rate).as_str());
                    return Err(report("tax_breakdown", actual, owned("one breakdown entry per (category, rate)")));
                }
                j = j + 1;
            }
            i = i + 1;
        }
        let breakdown_tax = sum_breakdown_tax(&self.tax_breakdown)?;
        let within = if self.tax_total.is_negative() {
            breakdown_tax.to_raw() <= 0 && breakdown_tax.to_raw() >= self.tax_total.to_raw()
        } else {
            breakdown_tax.to_raw() >= 0 && breakdown_tax.to_raw() <= self.tax_total.to_raw()
        };
        if !within {
            let mut expected = owned("a component of tax_total ");
            expected.append(self.tax_total.to_string().as_str());
            return Err(report("tax_breakdown_total", breakdown_tax.to_string(), expected));
        }
        Ok(())
    }

    fn check_discount_signs(&self) -> (r: Result<(), BillingError>)
        ensures
            r is Ok <==> self.discount_signs_valid(),
            r matches Err(e) ==> (e is ValidationFailed || e is MonetaryOverflow),
            r matches Err(e) ==> self.discount_signs_error(e),
    {
        let lines = self.line_total()?;
        let reversed = lines.is_negative();
        assert(self.discount_spec() == self.discount_positions@);
        let mut i: usize = 0;
        while i < self.discount_positions.len()
            invariant
                i <= self.discount_positions.len(),
                reversed == (raw_sum(nets(self.net_spec())) < 0),
                sums_fit(nets(self.net_spec())),
                forall|k: int| 0 <= k < i ==> ((#[trigger] self.discount_positions@[k]).net_amount@ == 0 || (
                self.discount_positions@[k].net_amount@ > 0) == reversed),
            decreases self.discount_positions.len() - i,
        {
            let p = &self.discount_positions[i];
            if p.net_amount.is_positive() != reversed && !p.net_amount.is_zero() {
                assert(!discount_signs_ok(self.discount_positions@, reversed));
                let mut actual = debug_quoted(p.description.as_str());
                actual.append(" = ");
                actual.append(p.net_amount.to_string().as_str());
                let expected = if reversed {
                    owned("every discount position >= 0 on a reversed document")
                } else {
                    owned("every discount position <= 0")
                };
                return Err(report("discount_positions", actual, expected));
            }
            i = i + 1;
        }
        Ok(())
    }

    fn check_payment(&self) -> (r: Result<(), BillingError>)
        ensures
            r is Ok <==> self.payment_ok(),
            r matches Err(e) ==> (e is ValidationFailed || e is MonetaryOverflow),
            r matches Err(e) ==> self.payment_error(e),
    {
        let derived = self.prepayment.total()?;
        if derived.to_raw() != self.prepaid.to_raw() {
            return Err(mismatch("prepaid_vs_prepayment", self.prepaid, derived));
        }
        if self.prepaid.is_negative() {
            return Err(report("prepaid", self.prepaid.to_string(), owned(">= 0")));
        }
        if let Some(rule) = &self.cash_rounding {
            let payable = self.gross_total.checked_sub(self.prepaid)?;
            proof {
                Amount::<5>::lemma_from_raw_spec(payable);
            }
            let expected = rule.difference(payable)?;
            if expected.to_raw() != self.rounding.to_raw() {
                return Err(mismatch("rounding", self.rounding, expected));
            }
        }
        Ok(())
    }

    fn check_discount_total(&self) -> (r: Result<(), BillingError>)
        ensures
            r is Ok <==> self.discount_total_ok(),
            r matches Err(e) ==> (e is ValidationFailed || e is MonetaryOverflow),
            r matches Err(e) ==> self.discount_total_error(e),
    {
        let none: Vec<LineItem> = Vec::new();
        assert(self.discount_positions@ + none@ =~= self.discount_positions@);
        let computed_discount = sum_nets(self.discount_positions.as_slice(), none.as_slice())?;
        if computed_discount.to_raw() != self.discount_total.to_raw() {
            return Err(mismatch("discount_total", computed_discount, self.discount_total));
        }
        Ok(())
    }

    fn check_vat_presence(&self) -> (r: Result<(), BillingError>)
        ensures
            r is Ok <==> self.vat_presence_ok(),
            r matches Err(e) ==> e is ValidationFailed,
            r matches Err(e) ==> self.vat_presence_error(e),
    {
        let n = self.tax_breakdown.len();
        assert(self.tax_spec() == self.tax_positions@);
        assert(self.breakdown_spec() == self.tax_breakdown@);
        let charges = has_vat_position(self.tax_positions.as_slice());
        if charges != (n > 0) {
            if charges {
                return Err(failed(
                    "vat_breakdown_presence",
                    "VAT positions but no VAT breakdown",
                    "at least one VAT breakdown group (BG-23), per BR-CO-18",
                ));
            }
            let mut actual = usize_text(n);
            actual.append(" VAT breakdown entries but no VAT position");
            return Err(report("vat_breakdown_presence", actual, owned("a VAT position for the declared breakdown")));
        }
        if n > 1 {
            let mut i: usize = 0;
            while i < n
                invariant
                    i <= n,
                    n == self.tax_breakdown.len(),
                    n > 1,
                    charges_vat(self.tax_spec()) == (self.breakdown_spec().len() > 0),
                    forall|k: int| 0 <= k < i ==> (#[trigger] self.tax_breakdown@[k]).category != TaxCategory::OutOfScope,
                decreases n - i,
            {
                if self.tax_breakdown[i].category == TaxCategory::OutOfScope {
                    assert((self.tax_breakdown@[i as int]).category == TaxCategory::OutOfScope);
                    let mut actual = owned("category ");
                    actual.append(self.tax_breakdown[i].category.code());
                    actual.append(" alongside ");
                    actual.append(usize_text(n - 1).as_str());
                    actual.append(" other breakdown group(s)");
                    return Err(report(
                        "tax_breakdown",
                        actual,
                        owned("a 'not subject to VAT' (O) breakdown to be the only group (BR-O-11)"),
                    ));
                }
                i = i + 1;
            }
        }
        Ok(())
    }
}

/// A `ValidationFailed` error.
fn failed(check: &str, actual: &str, expected: &str) -> (e: BillingError)
    ensures
        names_check(e, check@),
{
    BillingError::ValidationFailed { check: owned(check), actual: owned(actual), expected: owned(expected) }
}

/// A `ValidationFailed` error with texts already formed.
fn report(check: &str, actual: String, expected: String) -> (e: BillingError)
    ensures
        names_check(e, check@),
{
    BillingError::ValidationFailed { check: owned(check), actual, expected }
}

/// A `ValidationFailed` error for a computed amount against a stated one.
fn mismatch(check: &str, actual: Amount<5>, expected: Amount<5>) -> (e: BillingError)
    ensures
        names_check(e, check@),
{
    BillingError::ValidationFailed { check: owned(check), actual: actual.to_string(), expected: expected.to_string() }
}

/// Check every position; a failing one is reported as `ValidationFailed`.
fn check_items(items: &[LineItem], bucket: &str) -> (r: Result<(), BillingError>)
    ensures
        r is Ok <==> forall|i: int| 0 <= i < items@.len() ==> item_valid(#[trigger] items@[i]),
        r matches Err(e) ==> names_check(e, bucket@),
{
    let mut i: usize = 0;
    while i < items.len()
        invariant
            i <= items.len(),
            forall|k: int| 0 <= k < i ==> item_valid(#[trigger] items@[k]),
        decreases items.len() - i,
    {
        match items[i].validate() {
            Ok(()) => {},
            Err(e) => {
                let mut actual = debug_quoted(items[i].description.as_str());
                actual.append(": ");
                actual.append(e.message().as_str());
                return Err(report(bucket, actual, owned("every position satisfies LineItem::validate")));
            },
        }
        i = i + 1;
    }
    Ok(())
}

/// The breakdown's summed tax; `Err(MonetaryOverflow)` exactly when a running
/// total leaves `i64`.
fn sum_breakdown_tax(b: &Vec<TaxBreakdownEntry>) -> (r: Result<Amount<5>, BillingError>)
    ensures
        r is Ok <==> sums_fit(taxes(b@)),
        r matches Ok(x) ==> x@ == raw_sum(taxes(b@)),
        r matches Err(e) ==> e is MonetaryOverflow,
{
    let ghost items = taxes(b@);
    let mut acc = Amount::<5>::zero();
    let mut i: usize = 0;
    assert(items.take(0) =~= Seq::<Amount<5>>::empty());
    while i < b.len()
        invariant
            i <= b.len(),
            items == taxes(b@),
            items.len() == b.len(),
            acc@ == raw_sum(items.take(i as int)),
            forall|k: int| 0 <= k <= i ==> fits_i64(#[trigger] raw_sum(items.take(k))),
        decreases b.len() - i,
    {
        let x = b[i].tax_amount;
        assert(items.take(i as int + 1).drop_last() =~= items.take(i as int));
        assert(items.take(i as int + 1).last() == x);
        assert(raw_sum(items.take(i as int + 1)) == acc@ + x@);
        match acc.checked_add(x) {
            Ok(s) => {
                acc = s;
            },
            Err(e) => {
                return Err(e);
            },
        }
        i = i + 1;
    }
    assert(items.take(items.len() as int) =~= items);
    Ok(acc)
}

/// Some position is tagged `vat`.
pub open spec fn charges_vat(items: Seq<LineItem>) -> bool {
    exists|i: int| 0 <= i < items.len() && item_has_tag(#[trigger] items[i], "vat"@)
}

/// Whether a position is tagged `vat`.
fn has_vat_position(items: &[LineItem]) -> (r: bool)
    ensures
        r == charges_vat(items@),
{
    proof {
        reveal_strlit("vat");
    }
    let mut i: usize = 0;
    while i < items.len()
        invariant
            i <= items.len(),
            forall|k: int| 0 <= k < i ==> !item_has_tag(#[trigger] items@[k], "vat"@),
        decreases items.len() - i,
    {
        if items[i].has_tag("vat") {
            return true;
        }
        i = i + 1;
    }
    false
}

/// `q` is `p` with its amounts negated: net amount and allowance/charge base
/// negated, the sign set from the new amount, everything else kept.
pub open spec fn flipped(p: LineItem, q: LineItem) -> bool {
    &&& q.net_amount@ == -p.net_amount@
    &&& q.sign == (if -p.net_amount@ > 0 {
        Sign::Debit
    } else if -p.net_amount@ < 0 {
        Sign::Credit
    } else {
        p.sign
    })
    &&& q.description == p.description && q.quantity == p.quantity && q.unit_price == p.unit_price
    &&& q.period == p.period && q.tags@ == p.tags@ && q.vat == p.vat && q.metadata@ == p.metadata@
    &&& match p.allowance_charge {
        None => q.allowance_charge is None,
        Some(a) => q.allowance_charge matches Some(b) && b.reason_code == a.reason_code && b.percentage
            == a.percentage && match a.base_amount {
            None => b.base_amount is None,
            Some(x) => b.base_amount matches Some(y) && y@ == -x@,
        },
    }
}

/// Every position of `q` is the flipped position of `p`.
pub open spec fn all_flipped(p: Seq<LineItem>, q: Seq<LineItem>) -> bool {
    p.len() == q.len() && forall|i: int| 0 <= i < p.len() ==> flipped(#[trigger] p[i], q[i])
}

/// `r` is the reversal of `d`: every position, total and breakdown amount
/// negated, no prepayment, no rounding.
pub open spec fn reverses(r: BillingDocument, d: BillingDocument) -> bool {
    &&& all_flipped(d.net_spec(), r.net_spec())
    &&& all_flipped(d.tax_spec(), r.tax_spec())
    &&& all_flipped(d.discount_spec(), r.discount_spec())
    &&& r.net_total_spec()@ == -d.net_total_spec()@
    &&& r.tax_total_spec()@ == -d.tax_total_spec()@
    &&& r.gross_total_spec()@ == -d.gross_total_spec()@
    &&& r.discount_total_spec()@ == -d.discount_total_spec()@
    &&& r.breakdown_spec().len() == d.breakdown_spec().len()
    &&& forall|i: int| 0 <= i < d.breakdown_spec().len() ==> {
        let (a, b) = (#[trigger] d.breakdown_spec()[i], r.breakdown_spec()[i]);
        &&& b.taxable_base@ == -a.taxable_base@ && b.tax_amount@ == -a.tax_amount@
        &&& b.category == a.category && b.rate == a.rate
        &&& b.exemption_reason == a.exemption_reason && b.exemption_reason_code == a.exemption_reason_code
    }
    &&& r.prepayment_spec() is Nothing && r.prepaid_spec()@ == 0 && r.rounding_spec()@ == 0
    &&& r.cash_rounding_spec() is None
}

/// A position can be negated: neither its net amount nor its allowance
/// base is the one `i64` value without a negation.
pub open spec fn item_negatable(p: LineItem) -> bool {
    &&& p.net_amount@ != i64::MIN
    &&& p.allowance_charge matches Some(ac) ==> (ac.base_amount matches Some(b) ==> b@ != i64::MIN)
}

/// Every position of `items` can be negated.
pub open spec fn items_negatable(items: Seq<LineItem>) -> bool {
    forall|i: int| 0 <= i < items.len() ==> item_negatable(#[trigger] items[i])
}

/// Every amount of `d` can be negated: its positions, its four totals and
/// each breakdown entry's base and tax.
pub open spec fn reversible(d: BillingDocument) -> bool {
    &&& items_negatable(d.net_spec()) && items_negatable(d.tax_spec()) && items_negatable(d.discount_spec())
    &&& d.net_total_spec()@ != i64::MIN && d.tax_total_spec()@ != i64::MIN
    &&& d.gross_total_spec()@ != i64::MIN && d.discount_total_spec()@ != i64::MIN
    &&& forall|i: int| 0 <= i < d.breakdown_spec().len() ==> (#[trigger] d.breakdown_spec()[i]).taxable_base@
        != i64::MIN && d.breakdown_spec()[i].tax_amount@ != i64::MIN
}

/// Negate every position; `Err(MonetaryOverflow)` exactly where one cannot
/// be negated.
fn flip_items(items: &Vec<LineItem>) -> (r: Result<Vec<LineItem>, BillingError>)
    ensures
        r is Ok <==> items_negatable(items@),
        r matches Ok(v) ==> all_flipped(items@, v@),
        r matches Err(e) ==> e is MonetaryOverflow,
{
    let mut out: Vec<LineItem> = Vec::new();
    let mut i: usize = 0;
    while i < items.len()
        invariant
            i <= items.len(),
            out.len() == i,
            forall|k: int| 0 <= k < i ==> flipped(#[trigger] items@[k], out@[k]),
            forall|k: int| 0 <= k < i ==> item_negatable(#[trigger] items@[k]),
        decreases items.len() - i,
    {
        let p = &items[i];
        let mut q = clone_item(p);
        q.net_amount = p.net_amount.checked_neg()?;
        match &p.allowance_charge {
            Some(ac) => {
                q.allowance_charge = Some(ac.negated()?);
            },
            None => {},
        }
        q.normalize_sign();
        out.push(q);
        i = i + 1;
    }
    Ok(out)
}

/// Reversing twice gives back every amount of the document.
pub proof fn lemma_reverse_twice(d: BillingDocument, r1: BillingDocument, r2: BillingDocument)
    requires
        reverses(r1, d),
        reverses(r2, r1),
    ensures
        r2.net_total_spec() == d.net_total_spec(),
        r2.tax_total_spec() == d.tax_total_spec(),
        r2.gross_total_spec() == d.gross_total_spec(),
        r2.discount_total_spec() == d.discount_total_spec(),
        forall|i: int| 0 <= i < d.net_spec().len() ==> (#[trigger] r2.net_spec()[i]).net_amount == d.net_spec()[i].net_amount,
        forall|i: int| 0 <= i < d.breakdown_spec().len() ==> (#[trigger] r2.breakdown_spec()[i]) == d.breakdown_spec()[i],
{
    Amount::<5>::lemma_raw_eq(r2.net_total_spec(), d.net_total_spec());
    Amount::<5>::lemma_raw_eq(r2.tax_total_spec(), d.tax_total_spec());
    Amount::<5>::lemma_raw_eq(r2.gross_total_spec(), d.gross_total_spec());
    Amount::<5>::lemma_raw_eq(r2.discount_total_spec(), d.discount_total_spec());
    assert forall|i: int| 0 <= i < d.net_spec().len() implies (#[trigger] r2.net_spec()[i]).net_amount == d.net_spec()[i].net_amount by {
        assert(flipped(d.net_spec()[i], r1.net_spec()[i]));
        assert(flipped(r1.net_spec()[i], r2.net_spec()[i]));
        Amount::<5>::lemma_raw_eq(r2.net_spec()[i].net_amount, d.net_spec()[i].net_amount);
    }
    assert forall|i: int| 0 <= i < d.breakdown_spec().len() implies (#[trigger] r2.breakdown_spec()[i]) == d.breakdown_spec()[i] by {
        let a = d.breakdown_spec()[i];
        let b = r1.breakdown_spec()[i];
        let c = r2.breakdown_spec()[i];
        Amount::<5>::lemma_raw_eq(c.taxable_base, a.taxable_base);
        Amount::<5>::lemma_raw_eq(c.tax_amount, a.tax_amount);
    }
}

/// The amounts of `b` are those of `a`, negated.
pub open spec fn negated_amounts(a: Seq<Amount<5>>, b: Seq<Amount<5>>) -> bool {
    a.len() == b.len() && forall|i: int| 0 <= i < a.len() ==> (#[trigger] b[i])@ == -a[i]@
}

/// No running total of `s` is the one `i64` value without a negation.
pub open spec fn no_min_sums(s: Seq<Amount<5>>) -> bool {
    forall|k: int| 0 <= k <= s.len() ==> #[trigger] raw_sum(s.take(k)) != i64::MIN
}

/// No position carries a percentage basis (a base amount) for its
/// allowance or charge.
pub open spec fn no_basis(items: Seq<LineItem>) -> bool {
    forall|i: int| 0 <= i < items.len() ==> ((#[trigger] items[i]).allowance_charge matches Some(ac) ==> ac.base_amount is None)
}

/// Negating every amount negates the sum.
proof fn lemma_negated_sum(a: Seq<Amount<5>>, b: Seq<Amount<5>>)
    requires
        negated_amounts(a, b),
    ensures
        raw_sum(b) == -raw_sum(a),
    decreases a.len(),
{
    if a.len() > 0 {
        lemma_negated_sum(a.drop_last(), b.drop_last());
    }
}

/// Negating every amount negates every running total; they fit where none
/// of the original ones is `i64::MIN`.
proof fn lemma_negated_sums_fit(a: Seq<Amount<5>>, b: Seq<Amount<5>>)
    requires
        negated_amounts(a, b),
        sums_fit(a),
        no_min_sums(a),
    ensures
        sums_fit(b),
        raw_sum(b) == -raw_sum(a),
{
    lemma_negated_sum(a, b);
    assert forall|k: int| 0 <= k <= b.len() implies fits_i64(#[trigger] raw_sum(b.take(k))) by {
        lemma_negated_sum(a.take(k), b.take(k));
        assert(fits_i64(raw_sum(a.take(k))));
        assert(raw_sum(a.take(k)) != i64::MIN);
    }
}

/// The net amounts of flipped positions are the originals negated.
proof fn lemma_flipped_nets(p: Seq<LineItem>, q: Seq<LineItem>)
    requires
        all_flipped(p, q),
    ensures
        negated_amounts(nets(p), nets(q)),
{
    assert forall|i: int| 0 <= i < p.len() implies (#[trigger] nets(q)[i])@ == -nets(p)[i]@ by {
        assert(flipped(p[i], q[i]));
    }
}

/// A flipped position without a percentage basis is valid where the
/// original is.
proof fn lemma_flipped_valid(p: Seq<LineItem>, q: Seq<LineItem>)
    requires
        all_flipped(p, q),
        no_basis(p),
        forall|i: int| 0 <= i < p.len() ==> item_valid(#[trigger] p[i]),
    ensures
        forall|i: int| 0 <= i < q.len() ==> item_valid(#[trigger] q[i]),
        no_basis(q),
{
    assert forall|i: int| 0 <= i < q.len() implies item_valid(#[trigger] q[i]) by {
        assert(flipped(p[i], q[i]));
        assert(item_valid(p[i]));
    }
    assert forall|i: int| 0 <= i < q.len() implies ((#[trigger] q[i]).allowance_charge matches Some(ac) ==> ac.base_amount is None) by {
        assert(flipped(p[i], q[i]));
    }
}

/// The conditions under which reversing keeps a document valid (see
/// [`lemma_reverse_valid`]).
pub open spec fn reverse_keeps_valid(d: BillingDocument) -> bool {
    &&& d.breakdown_spec().len() == 0
    &&& no_basis(d.net_spec()) && no_basis(d.discount_spec()) && no_basis(d.tax_spec())
    &&& raw_sum(nets(d.net_spec())) != 0 || forall|i: int| 0 <= i < d.discount_spec().len() ==> (#[trigger] d.discount_spec()[i]).net_amount@ == 0
    &&& no_min_sums(nets(d.net_spec() + d.discount_spec())) && no_min_sums(nets(d.tax_spec()))
    &&& no_min_sums(nets(d.net_spec())) && no_min_sums(nets(d.discount_spec()))
}

/// Reversing a valid document without a VAT breakdown and without
/// percentage bases gives a valid document, provided its lines do not total
/// zero beside a non-zero discount and none of its running totals is
/// `i64::MIN`.
pub proof fn lemma_reverse_valid(d: BillingDocument, r: BillingDocument)
    requires
        reverses(r, d),
        d.doc_valid(),
        reverse_keeps_valid(d),
    ensures
        r.doc_valid(),
{
    let (dn, dd, dt) = (d.net_spec(), d.discount_spec(), d.tax_spec());
    let (rn, rd, rt) = (r.net_spec(), r.discount_spec(), r.tax_spec());
    assert(all_flipped(dn + dd, rn + rd)) by {
        assert forall|i: int| 0 <= i < (dn + dd).len() implies flipped(#[trigger] (dn + dd)[i], (rn + rd)[i]) by {
            if i < dn.len() {
                assert(flipped(dn[i], rn[i]));
            } else {
                assert(flipped(dd[i - dn.len()], rd[i - dn.len()]));
            }
        }
    }
    lemma_flipped_nets(dn + dd, rn + rd);
    lemma_flipped_nets(dt, rt);
    lemma_flipped_nets(dn, rn);
    lemma_flipped_nets(dd, rd);
    lemma_negated_sums_fit(nets(dn + dd), nets(rn + rd));
    lemma_negated_sums_fit(nets(dt), nets(rt));
    lemma_negated_sums_fit(nets(dn), nets(rn));
    lemma_negated_sums_fit(nets(dd), nets(rd));
    lemma_flipped_valid(dn, rn);
    lemma_flipped_valid(dd, rd);
    lemma_flipped_valid(dt, rt);
    assert(r.totals_ok());
    assert(r.discount_total_ok());
    assert(r.positions_ok());
    assert(r.discount_signs_valid()) by {
        assert forall|i: int| 0 <= i < rd.len() implies ((#[trigger] rd[i]).net_amount@ == 0 || (rd[i].net_amount@ > 0)
            == (raw_sum(nets(rn)) < 0)) by {
            assert(flipped(dd[i], rd[i]));
            assert(dd[i].net_amount@ == 0 || (dd[i].net_amount@ > 0) == (raw_sum(nets(dn)) < 0));
        }
    }
    assert(r.breakdown_spec() =~= Seq::<TaxBreakdownEntry>::empty());
    assert(taxes(r.breakdown_spec()) =~= Seq::<Amount<5>>::empty());
    assert(taxes(r.breakdown_spec()).take(0) =~= Seq::<Amount<5>>::empty());
    assert(r.breakdown_ok());
    assert(r.vat_presence_ok()) by {
        if charges_vat(rt) {
            let i = choose|i: int| 0 <= i < rt.len() && item_has_tag(#[trigger] rt[i], "vat"@);
            assert(flipped(dt[i], rt[i]));
            assert(item_has_tag(dt[i], "vat"@)) by {
                let j = choose|j: int| 0 <= j < rt[i].tags.len() && (#[trigger] rt[i].tags[j])@ == "vat"@;
                assert(dt[i].tags@[j] == rt[i].tags@[j]);
            }
        }
    }
    assert(r.payment_ok());
}


impl BillingDocument {
    /// Put a document together from its parts: the discount total is
    /// summed, a non-zero prepaid amount becomes a lump-sum prepayment, and
    /// there is no cash-rounding rule. `Err(MonetaryOverflow)` exactly when
    /// the discounts' running total leaves `i64`.
    pub(crate) fn from_raw(parts: DocumentParts) -> (r: Result<BillingDocument, BillingError>)
        ensures
            r is Ok <==> sums_fit(nets(parts.discount_positions@)),
            r matches Ok(d) ==> {
                &&& d.meta_spec() == parts.meta && d.net_spec() == parts.net_positions@
                &&& d.tax_spec() == parts.tax_positions@ && d.discount_spec() == parts.discount_positions@
                &&& d.net_total_spec() == parts.net_total && d.tax_total_spec() == parts.tax_total
                &&& d.gross_total_spec() == parts.gross_total
                &&& d.discount_total_spec()@ == raw_sum(nets(parts.discount_positions@))
                &&& d.breakdown_spec() == parts.tax_breakdown@ && d.prepaid_spec() == parts.prepaid
                &&& d.rounding_spec() == parts.rounding && d.cash_rounding_spec() is None
                &&& d.prepayment_spec() == (if parts.prepaid@ == 0 {
                    Prepayment::Nothing
                } else {
                    Prepayment::Total(parts.prepaid)
                })
            },
            r matches Err(e) ==> e is MonetaryOverflow,
    {
        let none: Vec<LineItem> = Vec::new();
        assert(parts.discount_positions@ + none@ =~= parts.discount_positions@);
        let discount_total = sum_nets(parts.discount_positions.as_slice(), none.as_slice())?;
        let prepayment = if parts.prepaid.is_zero() {
            Prepayment::Nothing
        } else {
            Prepayment::Total(parts.prepaid)
        };
        Ok(BillingDocument {
            meta: parts.meta,
            net_positions: parts.net_positions,
            tax_positions: parts.tax_positions,
            discount_positions: parts.discount_positions,
            net_total: parts.net_total,
            tax_total: parts.tax_total,
            gross_total: parts.gross_total,
            discount_total,
            tax_breakdown: parts.tax_breakdown,
            prepayment,
            prepaid: parts.prepaid,
            rounding: parts.rounding,
            cash_rounding: None,
        })
    }

    /// The reversal (credit note) of this document under `meta`: its kind
    /// becomes a credit note unless it already is one, and [`reverses`]
    /// holds. `Err(MonetaryOverflow)` exactly where an amount has no negation
    /// (see [`reversible`]).
    pub fn reverse(&self, meta: DocumentMeta) -> (r: Result<BillingDocument, BillingError>)
        ensures
            r is Ok <==> reversible(*self),
            (self.doc_valid() && reverse_keeps_valid(*self)) ==> (r matches Ok(d) ==> d.doc_valid()),
            r matches Ok(d) ==> reverses(d, *self) && d.meta_spec().kind == (if meta.kind == DocumentKind::CreditNote {
                meta.kind
            } else {
                DocumentKind::CreditNote
            }) && d.meta_spec().invoice_number == meta.invoice_number && d.meta_spec().currency == meta.currency,
            r matches Err(e) ==> e is MonetaryOverflow,
    {
        let kind = if meta.kind.is_credit_note() {
            meta.kind
        } else {
            DocumentKind::CreditNote
        };
        let meta = DocumentMeta { kind, ..meta };
        let net_positions = flip_items(&self.net_positions)?;
        let tax_positions = flip_items(&self.tax_positions)?;
        let discount_positions = flip_items(&self.discount_positions)?;
        let mut tax_breakdown: Vec<TaxBreakdownEntry> = Vec::new();
        let mut i: usize = 0;
        while i < self.tax_breakdown.len()
            invariant
                i <= self.tax_breakdown.len(),
                tax_breakdown.len() == i,
                forall|k: int| 0 <= k < i ==> {
                    let (a, b) = (#[trigger] self.tax_breakdown@[k], tax_breakdown@[k]);
                    &&& b.taxable_base@ == -a.taxable_base@ && b.tax_amount@ == -a.tax_amount@
                    &&& b.category == a.category && b.rate == a.rate
                    &&& b.exemption_reason == a.exemption_reason && b.exemption_reason_code == a.exemption_reason_code
                },
                forall|k: int| 0 <= k < i ==> (#[trigger] self.tax_breakdown@[k]).taxable_base@ != i64::MIN
                    && self.tax_breakdown@[k].tax_amount@ != i64::MIN,
            decreases self.tax_breakdown.len() - i,
        {
            let e = &self.tax_breakdown[i];
            let base = e.taxable_base.checked_neg()?;
            let tax = e.tax_amount.checked_neg()?;
            tax_breakdown.push(TaxBreakdownEntry {
                category: e.category,
                rate: e.rate,
                taxable_base: base,
                tax_amount: tax,
                exemption_reason: clone_text(&e.exemption_reason),
                exemption_reason_code: clone_text(&e.exemption_reason_code),
            });
            i = i + 1;
        }
        let d = BillingDocument {
            meta,
            net_positions,
            tax_positions,
            discount_positions,
            net_total: self.net_total.checked_neg()?,
            tax_total: self.tax_total.checked_neg()?,
            gross_total: self.gross_total.checked_neg()?,
            discount_total: self.discount_total.checked_neg()?,
            tax_breakdown,
            prepayment: Prepayment::Nothing,
            prepaid: Amount::zero(),
            rounding: Amount::zero(),
            cash_rounding: None,
        };
        proof {
            if self.doc_valid() && reverse_keeps_valid(*self) {
                lemma_reverse_valid(*self, d);
            }
        }
        Ok(d)
    }

    /// The rounding adjustment the cash-rounding rule asks for, if there is a
    /// rule; the current one otherwise.
    fn recompute_rounding(&mut self) -> (r: Result<(), BillingError>)
        ensures
            *final(self) == (BillingDocument { rounding: final(self).rounding, ..*old(self) }),
            r is Ok ==> rounding_ok(old(self).cash_rounding_spec(), old(self).gross_total_spec()@ as int, old(self).prepaid_spec()@ as int, final(self).rounding_spec()@ as int),
            r is Ok ==> (old(self).cash_rounding_spec() is None ==> final(self).rounding == old(self).rounding),
            r is Err <==> !rounding_ok(old(self).cash_rounding_spec(), old(self).gross_total_spec()@ as int, old(self).prepaid_spec()@ as int, final(self).rounding_spec()@ as int) && old(self).cash_rounding_spec() is Some,
            r is Ok <==> payable_rounds(old(self).cash_rounding_spec(), old(self).gross_total_spec()@ as int, old(self).prepaid_spec()@ as int),
            r matches Err(e) ==> e is MonetaryOverflow,
    {
        if let Some(rule) = self.cash_rounding {
            let payable = self.gross_total.checked_sub(self.prepaid)?;
            proof {
                Amount::<5>::lemma_from_raw_spec(payable);
            }
            self.rounding = rule.difference(payable)?;
        }
        Ok(())
    }

    /// Record a prepayment: its advances must be deductible from the VAT
    /// breakdown ([`residual_breakdown`]), its total is the amount prepaid
    /// (never negative), and the rounding adjustment is recomputed.
    pub fn with_prepayment(self, prepayment: Prepayment) -> (r: Result<BillingDocument, BillingError>)
        ensures
            r is Ok <==> prepayment_ok(self, prepayment),
            r matches Ok(d) ==> {
                &&& prepayment_total(prepayment) == Some(d.prepaid_spec()@ as int)
                &&& d.prepaid_spec()@ >= 0
                &&& d.prepayment_spec() == prepayment
                &&& d.net_spec() == self.net_spec() && d.tax_spec() == self.tax_spec() && d.discount_spec() == self.discount_spec()
                &&& d.net_total_spec() == self.net_total_spec() && d.tax_total_spec() == self.tax_total_spec()
                &&& d.gross_total_spec() == self.gross_total_spec() && d.breakdown_spec() == self.breakdown_spec()
                &&& d.cash_rounding_spec() == self.cash_rounding_spec()
                &&& rounding_ok(d.cash_rounding_spec(), d.gross_total_spec()@ as int, d.prepaid_spec()@ as int, d.rounding_spec()@ as int)
                &&& crate::advance::deduct_all(self.breakdown_spec(), advance_entries(prepayment_advances(prepayment))) is Some
            },
            r matches Err(e) ==> (e is InvalidInput || e is MonetaryOverflow),
    {
        let _ = residual_breakdown(self.tax_breakdown.as_slice(), prepayment.advances())?;
        let prepaid = prepayment.total()?;
        if prepaid.is_negative() {
            return Err(BillingError::InvalidInput {
                reason: join3("prepaid amount must be >= 0, got ", prepaid.to_string().as_str(), ""),
            });
        }
        let mut d = BillingDocument { prepayment, prepaid, ..self };
        d.recompute_rounding()?;
        Ok(d)
    }

    /// Record a lump-sum prepayment (`Err(InvalidInput)` when negative).
    pub fn with_prepaid(self, prepaid: Amount<5>) -> (r: Result<BillingDocument, BillingError>)
        ensures
            r is Ok <==> prepaid@ >= 0 && prepayment_ok(self, Prepayment::Total(prepaid)),
            prepaid@ < 0 ==> (r matches Err(e) && e is InvalidInput),
            r matches Ok(d) ==> d.prepaid_spec() == prepaid && d.prepayment_spec() == Prepayment::Total(prepaid)
                && d.net_total_spec() == self.net_total_spec() && d.gross_total_spec() == self.gross_total_spec(),
            r matches Err(e) ==> (e is InvalidInput || e is MonetaryOverflow),
    {
        let p = Prepayment::total_of(prepaid)?;
        let r = self.with_prepayment(p);
        proof {
            if r is Ok {
                Amount::<5>::lemma_raw_eq(r->Ok_0.prepaid_spec(), prepaid);
            }
        }
        r
    }

    /// Record itemised advances (`Err(InvalidInput)` when there are none).
    pub fn with_advances(self, advances: Vec<AdvancePayment>) -> (r: Result<BillingDocument, BillingError>)
        ensures
            r is Ok <==> advances.len() > 0 && prepayment_ok(self, Prepayment::Itemised(advances)),
            advances.len() == 0 ==> (r matches Err(e) && e is InvalidInput),
            r matches Ok(d) ==> d.prepayment_spec() matches Prepayment::Itemised(v) && v@ == advances@
                && prepayment_total(d.prepayment_spec()) == Some(d.prepaid_spec()@ as int),
            r matches Err(e) ==> (e is InvalidInput || e is MonetaryOverflow),
    {
        let p = Prepayment::itemised(advances)?;
        self.with_prepayment(p)
    }

    /// Set the cash-rounding rule and recompute the adjustment.
    pub fn with_cash_rounding(self, rule: CashRounding) -> (r: Result<BillingDocument, BillingError>)
        ensures
            r is Ok <==> payable_rounds(Some(rule), self.gross_total_spec()@ as int, self.prepaid_spec()@ as int),
            r matches Ok(d) ==> d.cash_rounding_spec() == Some(rule) && rounding_ok(Some(rule), d.gross_total_spec()@ as int, d.prepaid_spec()@ as int, d.rounding_spec()@ as int)
                && d.gross_total_spec() == self.gross_total_spec() && d.prepaid_spec() == self.prepaid_spec(),
            r matches Err(e) ==> e is MonetaryOverflow,
    {
        let mut d = BillingDocument { cash_rounding: Some(rule), ..self };
        d.recompute_rounding()?;
        Ok(d)
    }

    /// Append a position to a document without a VAT breakdown: the net and
    /// gross totals grow by its amount and the rounding is recomputed.
    /// `Err(InvalidInput)` on a document with a breakdown.
    pub fn with_extra_position(self, item: LineItem) -> (r: Result<BillingDocument, BillingError>)
        ensures
            r is Ok <==> {
                let net = self.net_total_spec()@ + item.net_amount@;
                &&& self.breakdown_spec().len() == 0
                &&& fits_i64(net) && fits_i64(net + self.tax_total_spec()@)
                &&& payable_rounds(self.cash_rounding_spec(), net + self.tax_total_spec()@, self.prepaid_spec()@ as int)
            },
            self.breakdown_spec().len() > 0 ==> (r matches Err(e) && e is InvalidInput),
            r matches Ok(d) ==> {
                &&& d.net_total_spec()@ == self.net_total_spec()@ + item.net_amount@
                &&& d.gross_total_spec()@ == d.net_total_spec()@ + self.tax_total_spec()@
                &&& d.net_spec() == self.net_spec().push(item)
                &&& d.tax_spec() == self.tax_spec() && d.discount_spec() == self.discount_spec()
                &&& d.tax_total_spec() == self.tax_total_spec() && d.breakdown_spec() == self.breakdown_spec()
            },
            r matches Err(e) ==> (e is InvalidInput || e is MonetaryOverflow),
    {
        if self.tax_breakdown.len() > 0 {
            return Err(BillingError::invalid_input(
                "with_extra_position cannot be used on a document with a VAT breakdown: the breakdown's taxable base would no longer match the net total. Rebuild the document with the position included.",
            ));
        }
        let net_total = self.net_total.checked_add(item.net_amount)?;
        let gross_total = net_total.checked_add(self.tax_total)?;
        let mut d = self;
        d.net_total = net_total;
        d.gross_total = gross_total;
        d.net_positions.push(item);
        d.recompute_rounding()?;
        Ok(d)
    }
}

/// The advances of a prepayment (none for the other forms).
pub open spec fn prepayment_advances(p: Prepayment) -> Seq<AdvancePayment> {
    match p {
        Prepayment::Itemised(v) => v@,
        _ => Seq::empty(),
    }
}

/// The breakdown group of a line VAT attribution: its category and its rate
/// with trailing zeros stripped.
pub open spec fn vat_key(v: LineVat) -> (TaxCategory, (int, nat)) {
    (v.category, strip_zeros(v.rate.m(), v.rate.s()))
}

/// The breakdown group of a breakdown entry.
pub open spec fn entry_key(e: TaxBreakdownEntry) -> (TaxCategory, (int, nat)) {
    (e.category, strip_zeros(e.rate.m(), e.rate.s()))
}

/// A position counts toward VAT attribution: it is not itself a VAT position
/// and it carries a VAT attribution.
pub open spec fn attributed(p: LineItem) -> bool {
    !item_has_tag(p, "vat"@) && p.vat is Some
}

/// The summed net amount of the attributed positions of group `key`.
pub open spec fn group_sum(items: Seq<LineItem>, key: (TaxCategory, (int, nat))) -> int
    decreases items.len(),
{
    if items.len() == 0 {
        0
    } else {
        group_sum(items.drop_last(), key) + if attributed(items.last()) && vat_key(items.last().vat->0) == key {
            items.last().net_amount@ as int
        } else {
            0int
        }
    }
}

/// The index of the first breakdown entry of group `key`, from index `i`.
pub open spec fn entry_index(bd: Seq<TaxBreakdownEntry>, key: (TaxCategory, (int, nat)), i: int) -> Option<int>
    decreases bd.len() - i,
{
    if i < 0 || i >= bd.len() {
        None
    } else if entry_key(bd[i]) == key {
        Some(i)
    } else {
        entry_index(bd, key, i + 1)
    }
}

/// The VAT attribution agrees with the breakdown: each attributed group has a
/// breakdown entry whose base is the group's summed net amount; on a document
/// with an out-of-scope group every attribution is out of scope; the VAT
/// positions sum to the breakdown's tax.
pub open spec fn attribution_ok(all: Seq<LineItem>, tax: Seq<LineItem>, bd: Seq<TaxBreakdownEntry>) -> bool {
    &&& forall|i: int| 0 <= i < all.len() && attributed(#[trigger] all[i]) ==> (entry_index(bd, vat_key(all[i].vat->0), 0) matches Some(k)
        && bd[k].taxable_base@ == group_sum(all, vat_key(all[i].vat->0)))
    &&& (exists|j: int| 0 <= j < bd.len() && (#[trigger] bd[j]).category == TaxCategory::OutOfScope) ==> forall|i: int|
        0 <= i < all.len() && attributed(#[trigger] all[i]) ==> all[i].vat->0.category == TaxCategory::OutOfScope
    &&& split_sums_fit(tax, true) && sums_fit(taxes(bd))
    &&& raw_sum(nets(vat_items(tax))) == raw_sum(taxes(bd))
}

/// Every running sum of a group's attributed amounts, taken in the order of
/// the positions, fits `i64`.
pub open spec fn group_sums_fit(all: Seq<LineItem>) -> bool {
    forall|i: int| 0 <= i < all.len() && attributed(#[trigger] all[i]) ==> fits_i64(
        group_sum(all.take(i + 1), vat_key(all[i].vat->0)),
    )
}

/// Whether two decimals have the same canonical form (trailing zeros
/// stripped).
fn same_normal(a: &Decimal, b: &Decimal) -> (r: bool)
    ensures
        r == (strip_zeros(a.m(), a.s()) == strip_zeros(b.m(), b.s())),
{
    let na = a.normalize();
    let nb = b.normalize();
    proof {
        crate::arith::lemma_strip_idempotent(a.m(), a.s());
        crate::arith::lemma_strip_idempotent(b.m(), b.s());
        crate::arith::lemma_canonical_unique(na, nb);
    }
    na.value_eq(&nb)
}

fn line_key_matches(a: &LineVat, b: &LineVat) -> (r: bool)
    ensures
        r == (vat_key(*a) == vat_key(*b)),
{
    a.category == b.category && same_normal(&a.rate, &b.rate)
}

fn entry_key_matches(e: &TaxBreakdownEntry, v: &LineVat) -> (r: bool)
    ensures
        r == (entry_key(*e) == vat_key(*v)),
{
    e.category == v.category && same_normal(&e.rate, &v.rate)
}

impl BillingDocument {
    /// Check the VAT attribution against the breakdown.
    ///
    /// `Ok` only when [`attribution_ok`] holds for the positions; a group
    /// without an entry, a base that differs from the group's sum, an
    /// attribution outside an out-of-scope document, or VAT positions not
    /// summing to the breakdown's tax is `ValidationFailed`, which then means
    /// the attribution does not agree; the only other error is a sum leaving
    /// `i64`.
    pub fn verify_vat_attribution(&self) -> (r: Result<(), BillingError>)
        ensures
            r is Ok <==> (group_sums_fit(self.net_spec() + self.discount_spec() + self.tax_spec()) && attribution_ok(
                self.net_spec() + self.discount_spec() + self.tax_spec(),
                self.tax_spec(),
                self.breakdown_spec(),
            )),
            r matches Err(e) ==> (e is MonetaryOverflow || names_check(e, "vat_attribution"@) || names_check(
                e,
                "vat_total"@,
            )),
            r matches Err(e) ==> (e is MonetaryOverflow || (e is ValidationFailed && !attribution_ok(
                self.net_spec() + self.discount_spec() + self.tax_spec(),
                self.tax_spec(),
                self.breakdown_spec(),
            ))),
    {
        let ghost allv = self.net_positions@ + self.discount_positions@ + self.tax_positions@;
        let all = self.all_positions();
        let n = all.len();
        let mut sums: Vec<(LineVat, Amount<5>)> = Vec::new();
        let ghost mut wit: Seq<int> = Seq::empty();
        let mut i: usize = 0;
        proof {
            reveal_strlit("vat");
        }
        assert(allv.take(0) =~= Seq::<LineItem>::empty());
        while i < n
            invariant
                i <= n,
                n == all@.len(),
                allv == self.net_positions@ + self.discount_positions@ + self.tax_positions@,
                allv.len() == n,
                forall|k: int| 0 <= k < n ==> *(#[trigger] all@[k]) == allv[k],
                wit.len() == sums.len(),
                forall|k: int| 0 <= k < sums.len() ==> (#[trigger] sums@[k]).1@ == group_sum(allv.take(i as int), vat_key(sums@[k].0)),
                forall|j: int, k: int| 0 <= j < k < sums.len() ==> vat_key((#[trigger] sums@[j]).0) != vat_key((#[trigger] sums@[k]).0),
                forall|k: int| 0 <= k < sums.len() ==> 0 <= #[trigger] wit[k] < i && attributed(allv[wit[k]]) && vat_key(allv[wit[k]].vat->0) == vat_key(sums@[k].0),
                forall|t: int| 0 <= t < i && attributed(#[trigger] allv[t]) ==> key_in(sums@, vat_key(allv[t].vat->0)),
                forall|t: int| 0 <= t < i && attributed(#[trigger] allv[t]) ==> fits_i64(
                    group_sum(allv.take(t + 1), vat_key(allv[t].vat->0)),
                ),
            decreases n - i,
        {
            let p = all[i];
            assert(allv.take(i as int + 1).drop_last() =~= allv.take(i as int));
            assert(allv.take(i as int + 1).last() == *p);
            assert(*p == allv[i as int]);
            if !p.has_tag("vat") {
                if let Some(v) = &p.vat {
                    let mut j: usize = 0;
                    let mut found: Option<usize> = None;
                    while j < sums.len() && found.is_none()
                        invariant
                            j <= sums.len(),
                            found matches Some(k) ==> k < sums.len() && vat_key(sums@[k as int].0) == vat_key(*v),
                            found is None ==> forall|u: int| 0 <= u < j ==> vat_key((#[trigger] sums@[u]).0) != vat_key(*v),
                        decreases sums.len() - j,
                    {
                        if line_key_matches(&sums[j].0, v) {
                            found = Some(j);
                        }
                        j = j + 1;
                    }
                    match found {
                        Some(k) => {
                            let (key, total) = sums[k];
                            let t = match total.checked_add(p.net_amount) {
                                Ok(t) => t,
                                Err(e) => {
                                    proof {
                                        assert(attributed(allv[i as int]));
                                        assert(!group_sums_fit(allv));
                                    }
                                    return Err(e);
                                },
                            };
                            let ghost before = sums@;
                            sums.set(k, (key, t));
                            proof {
                                assert forall|u: int| 0 <= u < sums.len() implies (#[trigger] sums@[u]).0 == before[u].0 by {}
                                assert forall|t2: int| 0 <= t2 < i + 1 && attributed(#[trigger] allv[t2]) implies key_in(sums@, vat_key(allv[t2].vat->0)) by {
                                    if t2 < i {
                                        assert(key_in(before, vat_key(allv[t2].vat->0)));
                                        let u = choose|u: int| 0 <= u < before.len() && vat_key((#[trigger] before[u]).0) == vat_key(allv[t2].vat->0);
                                        assert(vat_key(sums@[u].0) == vat_key(allv[t2].vat->0));
                                    } else {
                                        assert(vat_key(sums@[k as int].0) == vat_key(allv[t2].vat->0));
                                    }
                                }
                            }
                        },
                        None => {
                            proof {
                                assert forall|t: int| 0 <= t < i && attributed(#[trigger] allv[t]) implies vat_key(allv[t].vat->0) != vat_key(*v) by {
                                    assert(key_in(sums@, vat_key(allv[t].vat->0)));
                                }
                                lemma_group_sum_none(allv.take(i as int), vat_key(*v));
                                wit = wit.push(i as int);
                            }
                            let ghost before = sums@;
                            sums.push((*v, p.net_amount));
                            proof {
                                assert forall|t2: int| 0 <= t2 < i + 1 && attributed(#[trigger] allv[t2]) implies key_in(sums@, vat_key(allv[t2].vat->0)) by {
                                    if t2 < i {
                                        assert(key_in(before, vat_key(allv[t2].vat->0)));
                                        let u = choose|u: int| 0 <= u < before.len() && vat_key((#[trigger] before[u]).0) == vat_key(allv[t2].vat->0);
                                        assert(sums@[u] == before[u]);
                                    } else {
                                        assert(vat_key(sums@[before.len() as int].0) == vat_key(allv[t2].vat->0));
                                    }
                                }
                            }
                        },
                    }
                }
            }
            i = i + 1;
        }
        assert(allv.take(n as int) =~= allv);
        let bd = &self.tax_breakdown;
        let mut k: usize = 0;
        while k < sums.len()
            invariant
                k <= sums.len(),
                allv == self.net_positions@ + self.discount_positions@ + self.tax_positions@,
                allv.len() == n,
                *bd == self.tax_breakdown,
                wit.len() == sums.len(),
                forall|u: int| 0 <= u < sums.len() ==> (#[trigger] sums@[u]).1@ == group_sum(allv, vat_key(sums@[u].0)),
                forall|u: int| 0 <= u < sums.len() ==> 0 <= #[trigger] wit[u] < n && attributed(allv[wit[u]]) && vat_key(allv[wit[u]].vat->0) == vat_key(sums@[u].0),
                forall|t: int| 0 <= t < n && attributed(#[trigger] allv[t]) ==> key_in(sums@, vat_key(allv[t].vat->0)),
                forall|u: int| 0 <= u < k ==> (entry_index(bd@, vat_key((#[trigger] sums@[u]).0), 0) matches Some(e) && bd@[e].taxable_base@ == sums@[u].1@),
            decreases sums.len() - k,
        {
            let (key, total) = sums[k];
            let mut j: usize = 0;
            let mut found: Option<usize> = None;
            while j < bd.len() && found.is_none()
                invariant
                    j <= bd.len(),
                    found is None ==> entry_index(bd@, vat_key(key), 0) == entry_index(bd@, vat_key(key), j as int),
                    found matches Some(e) ==> e < bd.len() && entry_index(bd@, vat_key(key), 0) == Some(e as int),
                decreases bd.len() - j,
            {
                if entry_key_matches(&bd[j], &key) {
                    assert(entry_index(bd@, vat_key(key), j as int) == Some(j as int));
                    found = Some(j);
                }
                j = j + 1;
            }
            let ghost t = wit[k as int];
            match found {
                None => {
                    proof {
                        assert(attributed(allv[t]));
                        assert(!attribution_ok(allv, self.tax_positions@, bd@));
                    }
                    let mut actual = owned("positions totalling ");
                    actual.append(total.to_string().as_str());
                    actual.append(" attributed to ");
                    actual.append(group_text(key.category, key.rate).as_str());
                    return Err(report("vat_attribution", actual, owned("a VAT breakdown entry for that group")));
                },
                Some(e) => {
                    if bd[e].taxable_base.to_raw() != total.to_raw() {
                        proof {
                            assert(attributed(allv[t]));
                            assert(!attribution_ok(allv, self.tax_positions@, bd@));
                        }
                        let mut actual = owned("positions attributed to ");
                        actual.append(group_text(key.category, key.rate).as_str());
                        actual.append(" sum to ");
                        actual.append(total.to_string().as_str());
                        let mut expected = owned("the group's taxable base ");
                        expected.append(bd[e].taxable_base.to_string().as_str());
                        expected.append(" (BR-S-08)");
                        return Err(report("vat_attribution", actual, expected));
                    }
                },
            }
            k = k + 1;
        }
        let mut has_o = false;
        let mut j: usize = 0;
        while j < bd.len()
            invariant
                j <= bd.len(),
                has_o == exists|u: int| 0 <= u < j && (#[trigger] bd@[u]).category == TaxCategory::OutOfScope,
            decreases bd.len() - j,
        {
            if bd[j].category == TaxCategory::OutOfScope {
                has_o = true;
            }
            j = j + 1;
        }
        if has_o {
            let mut k: usize = 0;
            while k < sums.len()
                invariant
                    k <= sums.len(),
                    allv == self.net_positions@ + self.discount_positions@ + self.tax_positions@,
                    allv.len() == n,
                    wit.len() == sums.len(),
                    has_o,
                    *bd == self.tax_breakdown,
                    exists|u: int| 0 <= u < bd.len() && (#[trigger] bd@[u]).category == TaxCategory::OutOfScope,
                    forall|u: int| 0 <= u < sums.len() ==> 0 <= #[trigger] wit[u] < n && attributed(allv[wit[u]]) && vat_key(allv[wit[u]].vat->0) == vat_key(sums@[u].0),
                    forall|u: int| 0 <= u < k ==> (#[trigger] sums@[u]).0.category == TaxCategory::OutOfScope,
                decreases sums.len() - k,
            {
                if sums[k].0.category != TaxCategory::OutOfScope {
                    proof {
                        let t = wit[k as int];
                        assert(attributed(allv[t]));
                        assert(allv[t].vat->0.category == sums@[k as int].0.category);
                        assert(allv[t].vat->0.category != TaxCategory::OutOfScope);
                        assert(!attribution_ok(allv, self.tax_positions@, bd@));
                    }
                    let mut actual = owned("a position in category ");
                    actual.append(sums[k].0.category.code());
                    actual.append(" on an 'O' document");
                    return Err(report(
                        "vat_attribution",
                        actual,
                        owned("every line, allowance and charge to be 'not subject to VAT' (BR-O-12 / BR-O-13 / BR-O-14)"),
                    ));
                }
                k = k + 1;
            }
        }
        let breakdown_tax = sum_breakdown_tax(&self.tax_breakdown)?;
        let vat_total = self.vat_total()?;
        if vat_total.to_raw() != breakdown_tax.to_raw() {
            let mut actual = owned("VAT positions sum to ");
            actual.append(vat_total.to_string().as_str());
            let mut expected = owned("the breakdown's tax ");
            expected.append(breakdown_tax.to_string().as_str());
            expected.append(" (BR-CO-14)");
            return Err(report("vat_total", actual, expected));
        }
        proof {
            assert forall|t: int| 0 <= t < allv.len() && attributed(#[trigger] allv[t]) implies (entry_index(bd@, vat_key(allv[t].vat->0), 0) matches Some(k)
                && bd@[k].taxable_base@ == group_sum(allv, vat_key(allv[t].vat->0))) by {
                assert(key_in(sums@, vat_key(allv[t].vat->0)));
                let u = choose|u: int| 0 <= u < sums@.len() && vat_key((#[trigger] sums@[u]).0) == vat_key(allv[t].vat->0);
                assert(entry_index(bd@, vat_key(sums@[u].0), 0) is Some);
            }
            if exists|j: int| 0 <= j < bd@.len() && (#[trigger] bd@[j]).category == TaxCategory::OutOfScope {
                assert forall|t: int| 0 <= t < allv.len() && attributed(#[trigger] allv[t]) implies allv[t].vat->0.category == TaxCategory::OutOfScope by {
                    assert(key_in(sums@, vat_key(allv[t].vat->0)));
                    let u = choose|u: int| 0 <= u < sums@.len() && vat_key((#[trigger] sums@[u]).0) == vat_key(allv[t].vat->0);
                }
            }
        }
        Ok(())
    }
}

/// Some entry of `sums` has group `key`.
pub open spec fn key_in(sums: Seq<(LineVat, Amount<5>)>, key: (TaxCategory, (int, nat))) -> bool {
    exists|u: int| 0 <= u < sums.len() && vat_key((#[trigger] sums[u]).0) == key
}

/// No attributed position of `items` in group `key` leaves its sum zero.
proof fn lemma_group_sum_none(items: Seq<LineItem>, key: (TaxCategory, (int, nat)))
    requires
        forall|t: int| 0 <= t < items.len() && attributed(#[trigger] items[t]) ==> vat_key(items[t].vat->0) != key,
    ensures
        group_sum(items, key) == 0,
    decreases items.len(),
{
    if items.len() > 0 {
        lemma_group_sum_none(items.drop_last(), key);
    }
}

} // verus!
