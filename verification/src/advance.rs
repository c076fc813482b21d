//! [`DocumentKind`] — the UNTDID 1001 document type code (EN 16931 BT-3) — and
//! the advance payments a final invoice settles.
use vstd::prelude::*;

use crate::amount::{raw_sum, Amount};
use crate::arith::fits_i64;
use crate::error::BillingError;
use crate::line_item::clone_text;
use crate::text::{join3, owned};
use vstd::string::StringExecFns;
use crate::vat::{clone_entry, group_text, same_group, tax_consistent, TaxBreakdownEntry};

verus! {

/// UNTDID 1001 document type code — EN 16931 **BT-3**.
#[derive(Debug, Clone, Copy, PartialEq, Eq, PartialOrd, Ord, Hash, Default)]
pub enum DocumentKind {
    /// `380` — commercial invoice (also a final or residual invoice).
    #[default]
    CommercialInvoice,
    /// `326` — partial invoice.
    PartialInvoice,
    /// `386` — prepayment invoice.
    PrepaymentInvoice,
    /// `384` — corrected invoice.
    CorrectedInvoice,
    /// `381` — credit note.
    CreditNote,
    /// `383` — debit note.
    DebitNote,
    /// `389` — self-billed invoice.
    SelfBilledInvoice,
    /// `875` — partial construction invoice.
    PartialConstructionInvoice,
    /// `876` — partial final construction invoice.
    PartialFinalConstructionInvoice,
    /// `877` — final construction invoice.
    FinalConstructionInvoice,
}

impl DocumentKind {
    /// The numeric UNTDID 1001 code.
    pub open spec fn code_spec(self) -> u16 {
        match self {
            DocumentKind::CommercialInvoice => 380,
            DocumentKind::PartialInvoice => 326,
            DocumentKind::PrepaymentInvoice => 386,
            DocumentKind::CorrectedInvoice => 384,
            DocumentKind::CreditNote => 381,
            DocumentKind::DebitNote => 383,
            DocumentKind::SelfBilledInvoice => 389,
            DocumentKind::PartialConstructionInvoice => 875,
            DocumentKind::PartialFinalConstructionInvoice => 876,
            DocumentKind::FinalConstructionInvoice => 877,
        }
    }

    /// The kind with UNTDID 1001 code `code`, if it is in the supported set.
    pub open spec fn from_code_spec(code: u16) -> Option<DocumentKind> {
        if code == 380 {
            Some(DocumentKind::CommercialInvoice)
        } else if code == 326 {
            Some(DocumentKind::PartialInvoice)
        } else if code == 386 {
            Some(DocumentKind::PrepaymentInvoice)
        } else if code == 384 {
            Some(DocumentKind::CorrectedInvoice)
        } else if code == 381 {
            Some(DocumentKind::CreditNote)
        } else if code == 383 {
            Some(DocumentKind::DebitNote)
        } else if code == 389 {
            Some(DocumentKind::SelfBilledInvoice)
        } else if code == 875 {
            Some(DocumentKind::PartialConstructionInvoice)
        } else if code == 876 {
            Some(DocumentKind::PartialFinalConstructionInvoice)
        } else if code == 877 {
            Some(DocumentKind::FinalConstructionInvoice)
        } else {
            None
        }
    }

    /// The numeric UNTDID 1001 code.
    pub fn code(&self) -> (c: u16)
        ensures
            c == self.code_spec(),
    {
        match self {
            DocumentKind::CommercialInvoice => 380,
            DocumentKind::PartialInvoice => 326,
            DocumentKind::PrepaymentInvoice => 386,
            DocumentKind::CorrectedInvoice => 384,
            DocumentKind::CreditNote => 381,
            DocumentKind::DebitNote => 383,
            DocumentKind::SelfBilledInvoice => 389,
            DocumentKind::PartialConstructionInvoice => 875,
            DocumentKind::PartialFinalConstructionInvoice => 876,
            DocumentKind::FinalConstructionInvoice => 877,
        }
    }

    /// Parse a UNTDID 1001 code; `None` for codes outside the supported set.
    pub fn from_code(code: u16) -> (r: Option<DocumentKind>)
        ensures
            r == DocumentKind::from_code_spec(code),
    {
        match code {
            380 => Some(DocumentKind::CommercialInvoice),
            326 => Some(DocumentKind::PartialInvoice),
            386 => Some(DocumentKind::PrepaymentInvoice),
            384 => Some(DocumentKind::CorrectedInvoice),
            381 => Some(DocumentKind::CreditNote),
            383 => Some(DocumentKind::DebitNote),
            389 => Some(DocumentKind::SelfBilledInvoice),
            875 => Some(DocumentKind::PartialConstructionInvoice),
            876 => Some(DocumentKind::PartialFinalConstructionInvoice),
            877 => Some(DocumentKind::FinalConstructionInvoice),
            _ => None,
        }
    }

    /// The numeric code as text, as `Display` writes it (`380`).
    pub fn to_string(&self) -> (r: String)
        ensures
            r@ == crate::text::nat_text(self.code_spec() as nat),
    {
        crate::text::usize_text(self.code() as usize)
    }

    /// Whether this kind represents a credit rather than a charge.
    pub fn is_credit_note(&self) -> (r: bool)
        ensures
            r == (*self == DocumentKind::CreditNote),
    {
        match self {
            DocumentKind::CreditNote => true,
            _ => false,
        }
    }
}

/// Every document kind reads back from its own code, and distinct kinds carry
/// distinct codes.
pub proof fn lemma_document_kind_code_roundtrip(k: DocumentKind)
    ensures
        DocumentKind::from_code_spec(k.code_spec()) == Some(k),
{
}

/// A code that parses names the kind whose code it is.
pub proof fn lemma_document_kind_code_inverse(c: u16)
    ensures
        DocumentKind::from_code_spec(c) matches Some(k) ==> k.code_spec() == c,
{
}

/// A breakdown entry passes [`TaxBreakdownEntry::validate`].
pub open spec fn entry_valid(e: TaxBreakdownEntry) -> bool {
    e.category_rules_ok() && tax_consistent(e.taxable_base@ as int, e.rate, e.tax_amount@ as int) == Some(true)
}

/// The entries an advance may carry: at least one; each valid, with a
/// non-negative base and tax; no two in the same group.
pub open spec fn advance_entries_ok(tax: Seq<TaxBreakdownEntry>) -> bool {
    &&& tax.len() > 0
    &&& forall|i: int| 0 <= i < tax.len() ==> {
        &&& entry_valid(#[trigger] tax[i])
        &&& tax[i].taxable_base@ >= 0
        &&& tax[i].tax_amount@ >= 0
    }
    &&& forall|i: int, j: int| 0 <= j < i < tax.len() ==> !same_group(#[trigger] tax[j], #[trigger] tax[i])
}

/// The taxable bases of entries, in order.
pub open spec fn bases(tax: Seq<TaxBreakdownEntry>) -> Seq<Amount<5>> {
    tax.map_values(|e: TaxBreakdownEntry| e.taxable_base)
}

/// The tax amounts of entries, in order.
pub open spec fn taxes(tax: Seq<TaxBreakdownEntry>) -> Seq<Amount<5>> {
    tax.map_values(|e: TaxBreakdownEntry| e.tax_amount)
}

/// Every running total of `s` fits `i64`.
pub open spec fn sums_fit(s: Seq<Amount<5>>) -> bool {
    forall|k: int| 0 <= k <= s.len() ==> fits_i64(#[trigger] raw_sum(s.take(k)))
}

/// Sum amounts; `Err(MonetaryOverflow)` exactly when a running total leaves
/// `i64`.
fn sum_amounts(get: &Vec<TaxBreakdownEntry>, base: bool) -> (r: Result<Amount<5>, BillingError>)
    ensures
        r is Ok <==> sums_fit(if base { bases(get@) } else { taxes(get@) }),
        r matches Ok(a) ==> a@ == raw_sum(if base { bases(get@) } else { taxes(get@) }),
        r matches Err(e) ==> e is MonetaryOverflow,
{
    let ghost items = if base { bases(get@) } else { taxes(get@) };
    let mut acc = Amount::<5>::zero();
    let mut i: usize = 0;
    assert(items.take(0) =~= Seq::<Amount<5>>::empty());
    while i < get.len()
        invariant
            i <= get.len(),
            items == (if base { bases(get@) } else { taxes(get@) }),
            items.len() == get.len(),
            acc@ == raw_sum(items.take(i as int)),
            forall|k: int| 0 <= k <= i ==> fits_i64(#[trigger] raw_sum(items.take(k))),
        decreases get.len() - i,
    {
        let x = if base { get[i].taxable_base } else { get[i].tax_amount };
        assert(items.take(i as int + 1).drop_last() =~= items.take(i as int));
        assert(items.take(i as int + 1).last() == x);
        assert(raw_sum(items.take(i as int + 1)) == acc@ + x@);
        match acc.checked_add(x) {
            Ok(s) => {
                acc = s;
            },
            Err(e) => {
                return Err(e);
            },
        }
        i = i + 1;
    }
    assert(items.take(items.len() as int) =~= items);
    Ok(acc)
}

/// An advance payment a final invoice deducts: its tax breakdown and the
/// references of the advance invoice.
#[derive(Debug, Clone, PartialEq, Eq)]
pub struct AdvancePayment {
    reference: Option<String>,
    reference_date: Option<String>,
    received_on: Option<String>,
    tax: Vec<TaxBreakdownEntry>,
}

impl AdvancePayment {
    /// The tax breakdown of the advance.
    pub closed spec fn tax_spec(&self) -> Seq<TaxBreakdownEntry> {
        self.tax@
    }

    /// The advance invoice reference.
    pub closed spec fn reference_spec(&self) -> Option<String> {
        self.reference
    }

    /// The date of the advance invoice.
    pub closed spec fn reference_date_spec(&self) -> Option<String> {
        self.reference_date
    }

    /// The date the advance was received.
    pub closed spec fn received_on_spec(&self) -> Option<String> {
        self.received_on
    }

    /// An advance with the given tax breakdown and no references:
    /// `Ok` exactly when [`advance_entries_ok`] holds; an entry failing its
    /// own validation fails with that error, anything else is `InvalidInput`.
    pub fn new(tax: Vec<TaxBreakdownEntry>) -> (r: Result<AdvancePayment, BillingError>)
        ensures
            r is Ok <==> advance_entries_ok(tax@),
            r matches Ok(a) ==> a.tax_spec() == tax@ && a.reference_spec() is None
                && a.reference_date_spec() is None && a.received_on_spec() is None,
            r matches Err(e) ==> (e is InvalidInput || e is MonetaryOverflow),
    {
        let n = tax.len();
        if n == 0 {
            return Err(BillingError::invalid_input(
                "AdvancePayment requires at least one tax breakdown entry: an advance whose tax is unstated cannot be deducted",
            ));
        }
        let mut i: usize = 0;
        while i < n
            invariant
                i <= n,
                n == tax.len(),
                forall|k: int| 0 <= k < i ==> {
                    &&& entry_valid(#[trigger] tax@[k])
                    &&& tax@[k].taxable_base@ >= 0
                    &&& tax@[k].tax_amount@ >= 0
                },
                forall|k: int, j: int| 0 <= j < k < i ==> !same_group(#[trigger] tax@[j], #[trigger] tax@[k]),
            decreases n - i,
        {
            let entry = &tax[i];
            entry.validate()?;
            if entry.taxable_base.is_negative() || entry.tax_amount.is_negative() {
                let mut reason = join3(
                    "AdvancePayment amounts must be >= 0, got base ",
                    entry.taxable_base.to_string().as_str(),
                    " and tax ",
                );
                reason.append(entry.tax_amount.to_string().as_str());
                return Err(BillingError::InvalidInput { reason });
            }
            let mut j: usize = 0;
            while j < i
                invariant
                    j <= i < n,
                    n == tax.len(),
                    forall|t: int| 0 <= t < j ==> !same_group(#[trigger] tax@[t], tax@[i as int]),
                decreases i - j,
            {
                if tax[j].same_group_as(&tax[i]) {
                    let e = &tax[i];
                    return Err(BillingError::InvalidInput {
                        reason: join3(
                            "AdvancePayment has two entries for group ",
                            group_text(e.category, e.rate).as_str(),
                            "",
                        ),
                    });
                }
                j = j + 1;
            }
            i = i + 1;
        }
        Ok(AdvancePayment { reference: None, reference_date: None, received_on: None, tax })
    }

    /// Attach the advance invoice reference.
    pub fn with_reference(self, reference: &str) -> (a: AdvancePayment)
        ensures
            (a.reference_spec() matches Some(x) && x@ == reference@),
            a.tax_spec() == self.tax_spec() && a.reference_date_spec() == self.reference_date_spec()
                && a.received_on_spec() == self.received_on_spec(),
    {
        AdvancePayment { reference: Some(owned(reference)), ..self }
    }

    /// Attach the date of the advance invoice.
    pub fn with_reference_date(self, date: &str) -> (a: AdvancePayment)
        ensures
            (a.reference_date_spec() matches Some(x) && x@ == date@),
            a.tax_spec() == self.tax_spec() && a.reference_spec() == self.reference_spec()
                && a.received_on_spec() == self.received_on_spec(),
    {
        AdvancePayment { reference_date: Some(owned(date)), ..self }
    }

    /// Attach the date the advance was received.
    pub fn with_received_on(self, date: &str) -> (a: AdvancePayment)
        ensures
            (a.received_on_spec() matches Some(x) && x@ == date@),
            a.tax_spec() == self.tax_spec() && a.reference_spec() == self.reference_spec()
                && a.reference_date_spec() == self.reference_date_spec(),
    {
        AdvancePayment { received_on: Some(owned(date)), ..self }
    }

    /// The advance invoice reference.
    pub fn reference(&self) -> (r: Option<&str>)
        ensures
            match self.reference_spec() {
                Some(x) => r matches Some(y) && y@ == x@,
                None => r is None,
            },
    {
        match &self.reference {
            Some(x) => Some(x.as_str()),
            None => None,
        }
    }

    /// The date of the advance invoice.
    pub fn reference_date(&self) -> (r: Option<&str>)
        ensures
            match self.reference_date_spec() {
                Some(x) => r matches Some(y) && y@ == x@,
                None => r is None,
            },
    {
        match &self.reference_date {
            Some(x) => Some(x.as_str()),
            None => None,
        }
    }

    /// The date the advance was received.
    pub fn received_on(&self) -> (r: Option<&str>)
        ensures
            match self.received_on_spec() {
                Some(x) => r matches Some(y) && y@ == x@,
                None => r is None,
            },
    {
        match &self.received_on {
            Some(x) => Some(x.as_str()),
            None => None,
        }
    }

    /// The tax breakdown of the advance.
    pub fn tax(&self) -> (r: &[TaxBreakdownEntry])
        ensures
            r@ == self.tax_spec(),
    {
        self.tax.as_slice()
    }

    /// The summed taxable bases; `Err(MonetaryOverflow)` exactly when a
    /// running total leaves `i64`.
    pub fn checked_net(&self) -> (r: Result<Amount<5>, BillingError>)
        ensures
            r is Ok <==> sums_fit(bases(self.tax_spec())),
            r matches Ok(a) ==> a@ == raw_sum(bases(self.tax_spec())),
            r matches Err(e) ==> e is MonetaryOverflow,
    {
        sum_amounts(&self.tax, true)
    }

    /// The summed tax amounts; `Err(MonetaryOverflow)` exactly when a running
    /// total leaves `i64`.
    pub fn checked_tax_total(&self) -> (r: Result<Amount<5>, BillingError>)
        ensures
            r is Ok <==> sums_fit(taxes(self.tax_spec())),
            r matches Ok(a) ==> a@ == raw_sum(taxes(self.tax_spec())),
            r matches Err(e) ==> e is MonetaryOverflow,
    {
        sum_amounts(&self.tax, false)
    }

    /// Whether net, tax and gross of the advance all fit.
    pub open spec fn totals_fit(&self) -> bool {
        &&& sums_fit(bases(self.tax_spec()))
        &&& sums_fit(taxes(self.tax_spec()))
        &&& fits_i64(raw_sum(bases(self.tax_spec())) + raw_sum(taxes(self.tax_spec())))
    }

    /// Net plus tax; `Err(MonetaryOverflow)` exactly when a total leaves `i64`.
    pub fn checked_gross(&self) -> (r: Result<Amount<5>, BillingError>)
        ensures
            r is Ok <==> self.totals_fit(),
            r matches Ok(a) ==> a@ == raw_sum(bases(self.tax_spec())) + raw_sum(taxes(self.tax_spec())),
            r matches Err(e) ==> e is MonetaryOverflow,
    {
        let net = self.checked_net()?;
        let tax = self.checked_tax_total()?;
        net.checked_add(tax)
    }

    /// The summed taxable bases.
    pub fn net(&self) -> (r: Amount<5>)
        requires
            sums_fit(bases(self.tax_spec())),
        ensures
            r@ == raw_sum(bases(self.tax_spec())),
    {
        match self.checked_net() {
            Ok(a) => a,
            Err(_) => Amount::<5>::zero(),
        }
    }

    /// The summed tax amounts.
    pub fn tax_total(&self) -> (r: Amount<5>)
        requires
            sums_fit(taxes(self.tax_spec())),
        ensures
            r@ == raw_sum(taxes(self.tax_spec())),
    {
        match self.checked_tax_total() {
            Ok(a) => a,
            Err(_) => Amount::<5>::zero(),
        }
    }

    /// Net plus tax.
    pub fn gross(&self) -> (r: Amount<5>)
        requires
            self.totals_fit(),
        ensures
            r@ == raw_sum(bases(self.tax_spec())) + raw_sum(taxes(self.tax_spec())),
    {
        match self.checked_gross() {
            Ok(a) => a,
            Err(_) => Amount::<5>::zero(),
        }
    }
}

/// What a final invoice records as paid in advance.
#[derive(Debug, Clone, PartialEq, Eq)]
pub enum Prepayment {
    /// Nothing was paid in advance.
    Nothing,
    /// A lump sum, without tax detail.
    Total(Amount<5>),
    /// Itemised advances, each with its tax breakdown.
    Itemised(Vec<AdvancePayment>),
}

impl Default for Prepayment {
    fn default() -> (p: Prepayment)
        ensures
            p is Nothing,
    {
        Prepayment::Nothing
    }
}

/// The gross of each advance, in order (`None` where one does not fit).
pub open spec fn advance_grosses(v: Seq<AdvancePayment>) -> Seq<Option<int>> {
    v.map_values(|a: AdvancePayment| if a.totals_fit() {
        Some(raw_sum(bases(a.tax_spec())) + raw_sum(taxes(a.tax_spec())))
    } else {
        None
    })
}

/// Running sums of optional values: `None` once a value is missing or a
/// running total leaves `i64`.
pub open spec fn checked_total(s: Seq<Option<int>>) -> Option<int>
    decreases s.len(),
{
    if s.len() == 0 {
        Some(0)
    } else {
        match (checked_total(s.drop_last()), s.last()) {
            (Some(t), Some(x)) => if fits_i64(t + x) {
                Some(t + x)
            } else {
                None
            },
            _ => None,
        }
    }
}

/// The tax total of each advance, in order (`None` where one does not fit).
pub open spec fn advance_taxes(v: Seq<AdvancePayment>) -> Seq<Option<int>> {
    v.map_values(|a: AdvancePayment| if sums_fit(taxes(a.tax_spec())) {
        Some(raw_sum(taxes(a.tax_spec())))
    } else {
        None
    })
}

impl Prepayment {
    /// A lump-sum prepayment: `Err(InvalidInput)` exactly when negative.
    pub fn total_of(total: Amount<5>) -> (r: Result<Prepayment, BillingError>)
        ensures
            r is Ok <==> total@ >= 0,
            r matches Ok(p) ==> p == Prepayment::Total(total),
            r matches Err(e) ==> e is InvalidInput,
    {
        if total.is_negative() {
            return Err(BillingError::InvalidInput {
                reason: join3("prepaid amount must be >= 0, got ", total.to_string().as_str(), ""),
            });
        }
        Ok(Prepayment::Total(total))
    }

    /// Itemised advances: `Err(InvalidInput)` exactly when there are none.
    pub fn itemised(advances: Vec<AdvancePayment>) -> (r: Result<Prepayment, BillingError>)
        ensures
            r is Ok <==> advances.len() > 0,
            r matches Ok(p) ==> p matches Prepayment::Itemised(v) && v@ == advances@,
            r matches Err(e) ==> e is InvalidInput,
    {
        if advances.len() == 0 {
            return Err(BillingError::invalid_input(
                "Prepayment::itemised requires at least one advance; use Prepayment::Nothing for no prepayment",
            ));
        }
        Ok(Prepayment::Itemised(advances))
    }

    /// The amount prepaid: zero, the lump sum, or the summed advance grosses
    /// (`Err(MonetaryOverflow)` where that sum leaves `i64`).
    pub fn total(&self) -> (r: Result<Amount<5>, BillingError>)
        ensures
            match self {
                Prepayment::Nothing => r matches Ok(a) && a@ == 0,
                Prepayment::Total(t) => r == Ok::<Amount<5>, BillingError>(*t),
                Prepayment::Itemised(v) => match checked_total(advance_grosses(v@)) {
                    Some(x) => r matches Ok(a) && a@ == x,
                    None => (r matches Err(e) && e is MonetaryOverflow),
                },
            },
    {
        match self {
            Prepayment::Nothing => Ok(Amount::zero()),
            Prepayment::Total(a) => Ok(*a),
            Prepayment::Itemised(v) => {
                let mut sum = Amount::<5>::zero();
                let mut i: usize = 0;
                assert(advance_grosses(v@).take(0) =~= Seq::<Option<int>>::empty());
                while i < v.len()
                    invariant
                        i <= v.len(),
                        *self == Prepayment::Itemised(*v),
                        checked_total(advance_grosses(v@).take(i as int)) == Some(sum@ as int),
                    decreases v.len() - i,
                {
                    assert(advance_grosses(v@).take(i as int + 1).drop_last() =~= advance_grosses(v@).take(i as int));
                    assert(advance_grosses(v@).take(i as int + 1).last() == advance_grosses(v@)[i as int]);
                    let g = match v[i].checked_gross() {
                        Ok(g) => g,
                        Err(e) => {
                            proof {
                                lemma_checked_total_none(advance_grosses(v@), i as int + 1);
                            }
                            return Err(e);
                        },
                    };
                    sum = match sum.checked_add(g) {
                        Ok(s) => s,
                        Err(e) => {
                            proof {
                                lemma_checked_total_none(advance_grosses(v@), i as int + 1);
                            }
                            return Err(e);
                        },
                    };
                    i = i + 1;
                }
                assert(advance_grosses(v@).take(v.len() as int) =~= advance_grosses(v@));
                Ok(sum)
            },
        }
    }

    /// The summed tax of the itemised advances (zero otherwise);
    /// `Err(MonetaryOverflow)` where it leaves `i64`.
    pub fn tax_total(&self) -> (r: Result<Amount<5>, BillingError>)
        ensures
            match self {
                Prepayment::Itemised(v) => match checked_total(advance_taxes(v@)) {
                    Some(x) => r matches Ok(a) && a@ == x,
                    None => (r matches Err(e) && e is MonetaryOverflow),
                },
                _ => r matches Ok(a) && a@ == 0,
            },
    {
        let v = self.advances();
        let mut sum = Amount::<5>::zero();
        let mut i: usize = 0;
        assert(advance_taxes(v@).take(0) =~= Seq::<Option<int>>::empty());
        while i < v.len()
            invariant
                i <= v.len(),
                match self {
                    Prepayment::Itemised(w) => v@ == w@,
                    _ => v@.len() == 0,
                },
                checked_total(advance_taxes(v@).take(i as int)) == Some(sum@ as int),
            decreases v.len() - i,
        {
            assert(advance_taxes(v@).take(i as int + 1).drop_last() =~= advance_taxes(v@).take(i as int));
            assert(advance_taxes(v@).take(i as int + 1).last() == advance_taxes(v@)[i as int]);
            let t = match v[i].checked_tax_total() {
                Ok(t) => t,
                Err(e) => {
                    proof {
                        lemma_checked_total_none(advance_taxes(v@), i as int + 1);
                    }
                    return Err(e);
                },
            };
            sum = match sum.checked_add(t) {
                Ok(s) => s,
                Err(e) => {
                    proof {
                        lemma_checked_total_none(advance_taxes(v@), i as int + 1);
                    }
                    return Err(e);
                },
            };
            i = i + 1;
        }
        assert(advance_taxes(v@).take(v.len() as int) =~= advance_taxes(v@));
        proof {
            if !(self is Itemised) {
                assert(v@.len() == 0);
            }
        }
        Ok(sum)
    }

    /// The itemised advances (none for the other forms).
    pub fn advances(&self) -> (r: &[AdvancePayment])
        ensures
            match self {
                Prepayment::Itemised(v) => r@ == v@,
                _ => r@.len() == 0,
            },
    {
        match self {
            Prepayment::Itemised(v) => v.as_slice(),
            _ => &[],
        }
    }

    /// Whether nothing was prepaid.
    pub fn is_none(&self) -> (r: bool)
        ensures
            r == (self is Nothing),
    {
        matches!(self, Prepayment::Nothing)
    }
}

/// Once a running total fails, every longer one fails too.
proof fn lemma_checked_total_none(s: Seq<Option<int>>, k: int)
    requires
        0 <= k <= s.len(),
        checked_total(s.take(k)) is None,
    ensures
        checked_total(s) is None,
    decreases s.len() - k,
{
    if k < s.len() {
        assert(s.take(k + 1).drop_last() =~= s.take(k));
        lemma_checked_total_none(s, k + 1);
    } else {
        assert(s.take(k) =~= s);
    }
}

/// The index of the first entry of `res` in the group of `e`.
pub open spec fn group_index(res: Seq<TaxBreakdownEntry>, e: TaxBreakdownEntry) -> Option<int> {
    if exists|i: int| 0 <= i < res.len() && same_group(res[i], e) {
        Some(choose|i: int| 0 <= i < res.len() && same_group(res[i], e) && forall|j: int| 0 <= j < i ==> !same_group(#[trigger] res[j], e))
    } else {
        None
    }
}

/// Deduct one advance entry from the breakdown: its group's base and tax are
/// reduced by the entry's, which must leave neither negative. `None` when the
/// group is missing, a difference leaves `i64`, or it goes negative.
pub open spec fn deduct(res: Seq<TaxBreakdownEntry>, e: TaxBreakdownEntry) -> Option<Seq<TaxBreakdownEntry>> {
    match group_index(res, e) {
        None => None,
        Some(i) => {
            let base = res[i].taxable_base@ - e.taxable_base@;
            let tax = res[i].tax_amount@ - e.tax_amount@;
            if fits_i64(base) && fits_i64(tax) && base >= 0 && tax >= 0 {
                Some(res.update(i, TaxBreakdownEntry {
                    taxable_base: Amount::<5>::from_raw_spec(base),
                    tax_amount: Amount::<5>::from_raw_spec(tax),
                    ..res[i]
                }))
            } else {
                None
            }
        },
    }
}

/// Deduct a sequence of advance entries, in order.
pub open spec fn deduct_all(res: Seq<TaxBreakdownEntry>, es: Seq<TaxBreakdownEntry>) -> Option<Seq<TaxBreakdownEntry>>
    decreases es.len(),
{
    if es.len() == 0 {
        Some(res)
    } else {
        match deduct_all(res, es.drop_last()) {
            None => None,
            Some(r) => deduct(r, es.last()),
        }
    }
}

/// All entries of the advances, in order.
pub open spec fn advance_entries(advances: Seq<AdvancePayment>) -> Seq<TaxBreakdownEntry>
    decreases advances.len(),
{
    if advances.len() == 0 {
        Seq::empty()
    } else {
        advance_entries(advances.drop_last()) + advances.last().tax_spec()
    }
}

/// The entries whose base or tax is not zero.
pub open spec fn non_zero_entries(s: Seq<TaxBreakdownEntry>) -> Seq<TaxBreakdownEntry>
    decreases s.len(),
{
    if s.len() == 0 {
        Seq::empty()
    } else {
        let rest = non_zero_entries(s.drop_last());
        if s.last().taxable_base@ == 0 && s.last().tax_amount@ == 0 {
            rest
        } else {
            rest.push(s.last())
        }
    }
}

/// The VAT breakdown left to invoice after the advances: each advance entry
/// is deducted from its group of `full`, and fully settled groups are
/// dropped. `Err(InvalidInput)` when an advance names a group `full` lacks or
/// exceeds it; `MonetaryOverflow` where a difference leaves `i64`.
pub fn residual_breakdown(full: &[TaxBreakdownEntry], advances: &[AdvancePayment]) -> (r: Result<
    Vec<TaxBreakdownEntry>,
    BillingError,
>)
    ensures
        r is Ok <==> deduct_all(full@, advance_entries(advances@)) is Some,
        r matches Ok(v) ==> v@ == non_zero_entries(deduct_all(full@, advance_entries(advances@))->0),
        r matches Err(e) ==> (e is InvalidInput || e is MonetaryOverflow),
{
    let mut residual: Vec<TaxBreakdownEntry> = Vec::new();
    let mut i: usize = 0;
    while i < full.len()
        invariant
            i <= full.len(),
            residual@ == full@.take(i as int),
        decreases full.len() - i,
    {
        residual.push(clone_entry(&full[i]));
        i = i + 1;
        assert(residual@ =~= full@.take(i as int));
    }
    assert(full@.take(full.len() as int) =~= full@);
    let mut a: usize = 0;
    assert(advance_entries(advances@.take(0)) =~= Seq::<TaxBreakdownEntry>::empty());
    while a < advances.len()
        invariant
            a <= advances.len(),
            deduct_all(full@, advance_entries(advances@.take(a as int))) == Some(residual@),
        decreases advances.len() - a,
    {
        let adv = &advances[a];
        let ghost done = advance_entries(advances@.take(a as int));
        assert(advances@.take(a as int + 1).drop_last() =~= advances@.take(a as int));
        assert(advance_entries(advances@.take(a as int + 1)) == done + adv.tax@);
        let mut k: usize = 0;
        assert(done + adv.tax@.take(0) =~= done);
        while k < adv.tax.len()
            invariant
                k <= adv.tax.len(),
                a < advances.len(),
                *adv == advances@[a as int],
                done == advance_entries(advances@.take(a as int)),
                deduct_all(full@, done + adv.tax@.take(k as int)) == Some(residual@),
            decreases adv.tax.len() - k,
        {
            let entry = &adv.tax[k];
            assert((done + adv.tax@.take(k as int + 1)).drop_last() =~= done + adv.tax@.take(k as int));
            assert((done + adv.tax@.take(k as int + 1)).last() == *entry);
            let mut j: usize = 0;
            let mut found: Option<usize> = None;
            while j < residual.len() && found.is_none()
                invariant
                    j <= residual.len(),
                    found matches Some(t) ==> t < residual.len() && same_group(residual@[t as int], *entry)
                        && forall|u: int| 0 <= u < t ==> !same_group(#[trigger] residual@[u], *entry),
                    found is None ==> forall|u: int| 0 <= u < j ==> !same_group(#[trigger] residual@[u], *entry),
                decreases residual.len() - j,
            {
                if residual[j].same_group_as(entry) {
                    found = Some(j);
                }
                j = j + 1;
            }
            let t = match found {
                Some(t) => t,
                None => {
                    proof {
                        lemma_deduct_none_extends(full@, done + adv.tax@.take(k as int + 1), advances@, a as int, k as int + 1);
                    }
                    return Err(BillingError::InvalidInput {
                        reason: join3(
                            "advance covers VAT group ",
                            group_text(entry.category, entry.rate).as_str(),
                            ", which the supply does not contain",
                        ),
                    });
                },
            };
            proof {
                assert(group_index(residual@, *entry) == Some(t as int));
            }
            let target = clone_entry(&residual[t]);
            let base = match target.taxable_base.checked_sub(entry.taxable_base) {
                Ok(b) => b,
                Err(e) => {
                    proof {
                        lemma_deduct_none_extends(full@, done + adv.tax@.take(k as int + 1), advances@, a as int, k as int + 1);
                    }
                    return Err(e);
                },
            };
            let tax = match target.tax_amount.checked_sub(entry.tax_amount) {
                Ok(x) => x,
                Err(e) => {
                    proof {
                        lemma_deduct_none_extends(full@, done + adv.tax@.take(k as int + 1), advances@, a as int, k as int + 1);
                    }
                    return Err(e);
                },
            };
            if base.is_negative() || tax.is_negative() {
                proof {
                    lemma_deduct_none_extends(full@, done + adv.tax@.take(k as int + 1), advances@, a as int, k as int + 1);
                }
                return Err(BillingError::InvalidInput {
                    reason: join3(
                        "advances exceed the supply in VAT group ",
                        group_text(entry.category, entry.rate).as_str(),
                        ": deducting would understate output tax",
                    ),
                });
            }
            proof {
                Amount::<5>::lemma_from_raw_spec(base);
                Amount::<5>::lemma_from_raw_spec(tax);
            }
            residual.set(t, TaxBreakdownEntry { taxable_base: base, tax_amount: tax, ..target });
            k = k + 1;
        }
        assert(adv.tax@.take(adv.tax.len() as int) =~= adv.tax@);
        a = a + 1;
    }
    assert(advances@.take(advances.len() as int) =~= advances@);
    let ghost settled = residual@;
    let mut out: Vec<TaxBreakdownEntry> = Vec::new();
    let mut i: usize = 0;
    assert(settled.take(0) =~= Seq::<TaxBreakdownEntry>::empty());
    while i < residual.len()
        invariant
            i <= residual.len(),
            residual@ == settled,
            out@ == non_zero_entries(settled.take(i as int)),
        decreases residual.len() - i,
    {
        assert(settled.take(i as int + 1).drop_last() =~= settled.take(i as int));
        let e = &residual[i];
        if !(e.taxable_base.is_zero() && e.tax_amount.is_zero()) {
            out.push(clone_entry(e));
        }
        i = i + 1;
    }
    assert(settled.take(settled.len() as int) =~= settled);
    Ok(out)
}

/// A failed deduction fails the whole sequence of advances.
proof fn lemma_deduct_none_extends(
    full: Seq<TaxBreakdownEntry>,
    prefix: Seq<TaxBreakdownEntry>,
    advances: Seq<AdvancePayment>,
    a: int,
    k: int,
)
    requires
        0 <= a < advances.len(),
        0 <= k <= advances[a].tax_spec().len(),
        prefix == advance_entries(advances.take(a)) + advances[a].tax_spec().take(k),
        deduct_all(full, prefix) is None,
    ensures
        deduct_all(full, advance_entries(advances)) is None,
{
    lemma_entries_prefix(advances, a, k);
    let all = advance_entries(advances);
    lemma_deduct_all_none_prefix(full, all, prefix.len() as int);
}

/// Entries of the first `a` advances and `k` of the next form a prefix of all
/// advance entries.
proof fn lemma_entries_prefix(advances: Seq<AdvancePayment>, a: int, k: int)
    requires
        0 <= a < advances.len(),
        0 <= k <= advances[a].tax_spec().len(),
    ensures
        advance_entries(advances.take(a)) + advances[a].tax_spec().take(k) == advance_entries(advances).take(
            advance_entries(advances.take(a)).len() + k,
        ),
        advance_entries(advances.take(a)).len() + k <= advance_entries(advances).len(),
    decreases advances.len(),
{
    if a == advances.len() - 1 {
        assert(advances.take(a) =~= advances.drop_last());
        assert(advance_entries(advances) == advance_entries(advances.drop_last()) + advances.last().tax_spec());
        assert(advance_entries(advances.take(a)) + advances[a].tax_spec().take(k) =~= advance_entries(advances).take(
            advance_entries(advances.take(a)).len() + k,
        ));
    } else {
        lemma_entries_prefix(advances.drop_last(), a, k);
        assert(advances.drop_last().take(a) =~= advances.take(a));
        let d = advance_entries(advances.drop_last());
        assert(advance_entries(advances) == d + advances.last().tax_spec());
        assert(advance_entries(advances.take(a)) + advances[a].tax_spec().take(k) =~= advance_entries(advances).take(
            advance_entries(advances.take(a)).len() + k,
        ));
    }
}

/// A failed prefix of deductions fails the whole.
proof fn lemma_deduct_all_none_prefix(full: Seq<TaxBreakdownEntry>, es: Seq<TaxBreakdownEntry>, k: int)
    requires
        0 <= k <= es.len(),
        deduct_all(full, es.take(k)) is None,
    ensures
        deduct_all(full, es) is None,
    decreases es.len() - k,
{
    if k < es.len() {
        assert(es.take(k + 1).drop_last() =~= es.take(k));
        lemma_deduct_all_none_prefix(full, es, k + 1);
    } else {
        assert(es.take(k) =~= es);
    }
}

} // verus!
