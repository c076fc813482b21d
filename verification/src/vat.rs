//! [`TaxCategory`] — the EN 16931 BT-118 / UNTDID 5305 VAT category code —
//! and the per-rate VAT breakdown.
use vstd::prelude::*;

use crate::amount::Amount;
use crate::decimal::{decimal_difference, decimal_product, decimal_text, pow10, strip_zeros, Decimal};
use crate::error::BillingError;
use crate::text::{chars_of, join3, owned};
use vstd::string::StringExecFns;

verus! {

/// EN 16931 BT-118 / UNTDID 5305 VAT category code.
#[derive(Debug, Clone, Copy, PartialEq, Eq, PartialOrd, Ord, Hash, Structural)]
pub enum TaxCategory {
    /// `S` — standard rate.
    Standard,
    /// `Z` — zero-rated goods.
    ZeroRated,
    /// `E` — exempt from VAT.
    Exempt,
    /// `AE` — VAT reverse charge.
    ReverseCharge,
    /// `K` — VAT-exempt intra-Community supply of goods.
    IntraCommunity,
    /// `G` — free export item, VAT not charged.
    Export,
    /// `O` — services outside the scope of VAT.
    OutOfScope,
    /// `L` — Canary Islands general indirect tax.
    CanaryIslands,
    /// `M` — tax for production, services and importation in Ceuta and Melilla.
    CeutaMelilla,
    /// `B` — split payment.
    SplitPayment,
}

/// ASCII lower-case letters of `s` read as upper case; every other character
/// kept.
pub open spec fn ascii_upper(s: Seq<char>) -> Seq<char> {
    s.map_values(|c: char| if 'a' <= c && c <= 'z' { ((c as u32) - 32) as char } else { c })
}

impl TaxCategory {
    /// The UNTDID 5305 code as written in EN 16931 documents.
    pub open spec fn code_spec(self) -> Seq<char> {
        match self {
            TaxCategory::Standard => seq!['S'],
            TaxCategory::ZeroRated => seq!['Z'],
            TaxCategory::Exempt => seq!['E'],
            TaxCategory::ReverseCharge => seq!['A', 'E'],
            TaxCategory::IntraCommunity => seq!['K'],
            TaxCategory::Export => seq!['G'],
            TaxCategory::OutOfScope => seq!['O'],
            TaxCategory::CanaryIslands => seq!['L'],
            TaxCategory::CeutaMelilla => seq!['M'],
            TaxCategory::SplitPayment => seq!['B'],
        }
    }

    /// The category whose code is the upper-case text `u`.
    pub open spec fn from_upper_code_spec(u: Seq<char>) -> Option<TaxCategory> {
        if u.len() == 1 {
            let c = u[0];
            if c == 'S' {
                Some(TaxCategory::Standard)
            } else if c == 'Z' {
                Some(TaxCategory::ZeroRated)
            } else if c == 'E' {
                Some(TaxCategory::Exempt)
            } else if c == 'K' {
                Some(TaxCategory::IntraCommunity)
            } else if c == 'G' {
                Some(TaxCategory::Export)
            } else if c == 'O' {
                Some(TaxCategory::OutOfScope)
            } else if c == 'L' {
                Some(TaxCategory::CanaryIslands)
            } else if c == 'M' {
                Some(TaxCategory::CeutaMelilla)
            } else if c == 'B' {
                Some(TaxCategory::SplitPayment)
            } else {
                None
            }
        } else if u.len() == 2 && u[0] == 'A' && u[1] == 'E' {
            Some(TaxCategory::ReverseCharge)
        } else {
            None
        }
    }

    /// `S`, `L`, `M` and `B` levy tax.
    pub open spec fn carries_tax_spec(self) -> bool {
        matches!(self, TaxCategory::Standard | TaxCategory::CanaryIslands | TaxCategory::CeutaMelilla | TaxCategory::SplitPayment)
    }

    /// `E`, `AE`, `K`, `G` and `O` require an exemption reason.
    pub open spec fn requires_exemption_reason_spec(self) -> bool {
        matches!(self, TaxCategory::Exempt | TaxCategory::ReverseCharge | TaxCategory::IntraCommunity | TaxCategory::Export | TaxCategory::OutOfScope)
    }

    /// `S`, `Z`, `L` and `M` forbid an exemption reason.
    pub open spec fn forbids_exemption_reason_spec(self) -> bool {
        matches!(self, TaxCategory::Standard | TaxCategory::ZeroRated | TaxCategory::CanaryIslands | TaxCategory::CeutaMelilla)
    }

    /// Every code EN 16931 permits, in the order BR-CL-17 lists them.
    pub fn all() -> (r: [TaxCategory; 10])
        ensures
            r@ == seq![
                TaxCategory::ReverseCharge, TaxCategory::CanaryIslands, TaxCategory::CeutaMelilla,
                TaxCategory::Exempt, TaxCategory::Standard, TaxCategory::ZeroRated, TaxCategory::Export,
                TaxCategory::OutOfScope, TaxCategory::IntraCommunity, TaxCategory::SplitPayment,
            ],
    {
        let r = [
            TaxCategory::ReverseCharge,
            TaxCategory::CanaryIslands,
            TaxCategory::CeutaMelilla,
            TaxCategory::Exempt,
            TaxCategory::Standard,
            TaxCategory::ZeroRated,
            TaxCategory::Export,
            TaxCategory::OutOfScope,
            TaxCategory::IntraCommunity,
            TaxCategory::SplitPayment,
        ];
        assert(r@ =~= seq![
            TaxCategory::ReverseCharge, TaxCategory::CanaryIslands, TaxCategory::CeutaMelilla,
            TaxCategory::Exempt, TaxCategory::Standard, TaxCategory::ZeroRated, TaxCategory::Export,
            TaxCategory::OutOfScope, TaxCategory::IntraCommunity, TaxCategory::SplitPayment,
        ]);
        r
    }

    /// The code as text, as `Display` writes it.
    pub fn to_string(&self) -> (r: String)
        ensures
            r@ == self.code_spec(),
    {
        owned(self.code())
    }

    /// The UNTDID 5305 code as written in EN 16931 / UBL / CII documents.
    pub fn code(&self) -> (r: &'static str)
        ensures
            r@ == self.code_spec(),
    {
        match self {
            TaxCategory::Standard => {
                proof { reveal_strlit("S"); }
                "S"
            },
            TaxCategory::ZeroRated => {
                proof { reveal_strlit("Z"); }
                "Z"
            },
            TaxCategory::Exempt => {
                proof { reveal_strlit("E"); }
                "E"
            },
            TaxCategory::ReverseCharge => {
                proof { reveal_strlit("AE"); }
                "AE"
            },
            TaxCategory::IntraCommunity => {
                proof { reveal_strlit("K"); }
                "K"
            },
            TaxCategory::Export => {
                proof { reveal_strlit("G"); }
                "G"
            },
            TaxCategory::OutOfScope => {
                proof { reveal_strlit("O"); }
                "O"
            },
            TaxCategory::CanaryIslands => {
                proof { reveal_strlit("L"); }
                "L"
            },
            TaxCategory::CeutaMelilla => {
                proof { reveal_strlit("M"); }
                "M"
            },
            TaxCategory::SplitPayment => {
                proof { reveal_strlit("B"); }
                "B"
            },
        }
    }

    /// Parse a UNTDID 5305 code, ignoring ASCII case.
    pub fn from_code(code: &str) -> (r: Option<TaxCategory>)
        ensures
            r == TaxCategory::from_upper_code_spec(ascii_upper(code@)),
    {
        let v = chars_of(code);
        let mut u: Vec<char> = Vec::new();
        let mut i: usize = 0;
        while i < v.len()
            invariant
                i <= v.len(),
                v@ == code@,
                u@ == ascii_upper(v@.take(i as int)),
            decreases v.len() - i,
        {
            let c = v[i];
            let up: char = if c >= 'a' && c <= 'z' { ((c as u32 - 32) as u8) as char } else { c };
            u.push(up);
            i = i + 1;
            assert(u@ =~= ascii_upper(v@.take(i as int)));
        }
        assert(v@.take(v.len() as int) =~= v@);
        if u.len() == 1 {
            let c = u[0];
            if c == 'S' {
                Some(TaxCategory::Standard)
            } else if c == 'Z' {
                Some(TaxCategory::ZeroRated)
            } else if c == 'E' {
                Some(TaxCategory::Exempt)
            } else if c == 'K' {
                Some(TaxCategory::IntraCommunity)
            } else if c == 'G' {
                Some(TaxCategory::Export)
            } else if c == 'O' {
                Some(TaxCategory::OutOfScope)
            } else if c == 'L' {
                Some(TaxCategory::CanaryIslands)
            } else if c == 'M' {
                Some(TaxCategory::CeutaMelilla)
            } else if c == 'B' {
                Some(TaxCategory::SplitPayment)
            } else {
                None
            }
        } else if u.len() == 2 && u[0] == 'A' && u[1] == 'E' {
            Some(TaxCategory::ReverseCharge)
        } else {
            None
        }
    }

    /// Whether this category actually levies tax (`S`, `L`, `M`, `B`).
    pub fn carries_tax(&self) -> (r: bool)
        ensures
            r == self.carries_tax_spec(),
    {
        matches!(self, TaxCategory::Standard | TaxCategory::CanaryIslands | TaxCategory::CeutaMelilla | TaxCategory::SplitPayment)
    }

    /// Whether EN 16931 requires an exemption reason (`E`, `AE`, `K`, `G`, `O`).
    pub fn requires_exemption_reason(&self) -> (r: bool)
        ensures
            r == self.requires_exemption_reason_spec(),
    {
        matches!(self, TaxCategory::Exempt | TaxCategory::ReverseCharge | TaxCategory::IntraCommunity | TaxCategory::Export | TaxCategory::OutOfScope)
    }

    /// Whether EN 16931 forbids an exemption reason (`S`, `Z`, `L`, `M`).
    pub fn forbids_exemption_reason(&self) -> (r: bool)
        ensures
            r == self.forbids_exemption_reason_spec(),
    {
        matches!(self, TaxCategory::Standard | TaxCategory::ZeroRated | TaxCategory::CanaryIslands | TaxCategory::CeutaMelilla)
    }

    /// Whether a strictly positive line rate is required (`S` alone).
    pub fn requires_positive_rate(&self) -> (r: bool)
        ensures
            r == (*self == TaxCategory::Standard),
    {
        matches!(self, TaxCategory::Standard)
    }

    /// Whether a zero line rate is required: every category that levies no tax.
    pub fn requires_zero_rate(&self) -> (r: bool)
        ensures
            r == !self.carries_tax_spec(),
    {
        !self.carries_tax()
    }

    /// Whether a line, allowance or charge in this category may state its rate:
    /// every category but `O`.
    pub fn states_rate(&self) -> (r: bool)
        ensures
            r == (*self != TaxCategory::OutOfScope),
    {
        !matches!(self, TaxCategory::OutOfScope)
    }
}

/// Every category reads back from its own code, in either case.
pub proof fn lemma_tax_category_code_roundtrip(c: TaxCategory)
    ensures
        TaxCategory::from_upper_code_spec(ascii_upper(c.code_spec())) == Some(c),
{
    assert(ascii_upper(c.code_spec()) =~= c.code_spec());
}

/// Split payment is the one category governed by neither exemption-reason
/// rule; every other category is governed by exactly one.
pub proof fn lemma_exemption_rules_partition(c: TaxCategory)
    ensures
        c == TaxCategory::SplitPayment ==> !c.requires_exemption_reason_spec() && !c.forbids_exemption_reason_spec(),
        c != TaxCategory::SplitPayment ==> c.requires_exemption_reason_spec() != c.forbids_exemption_reason_spec(),
{
}

/// Whether `rate` satisfies the rate rule of `category` for a line: strictly
/// positive under `S`, exactly zero where no tax is levied, never negative.
pub open spec fn line_rate_ok(category: TaxCategory, rate: Decimal) -> bool {
    &&& category == TaxCategory::Standard ==> rate.m() > 0
    &&& !category.carries_tax_spec() ==> rate.m() == 0
    &&& rate.m() >= 0
}

/// `rate × 100` with trailing zeros stripped, or `rate` itself when the
/// product overflows.
pub open spec fn rate_percent_spec(rate: Decimal) -> (int, nat) {
    match decimal_product(rate.m(), rate.s(), 100, 0) {
        Some((pm, ps)) => strip_zeros(pm, ps),
        None => (rate.m(), rate.s()),
    }
}

/// `d × 100`, normalised; `d` unchanged when the product overflows.
pub(crate) fn percent_of(d: Decimal) -> (r: Decimal)
    ensures
        (r.m(), r.s()) == rate_percent_spec(d),
{
    match d.checked_mul(&Decimal::new(100, 0)) {
        Some(p) => p.normalize(),
        None => d,
    }
}

/// The VAT treatment of a single position: its category and rate.
#[derive(Debug, Clone, Copy, PartialEq, Eq)]
pub struct LineVat {
    /// The UNCL 5305 VAT category code.
    pub category: TaxCategory,
    /// The rate as a fraction (`0.19`, not `19`).
    pub rate: Decimal,
}

impl LineVat {
    /// Create a VAT attribution, checking the category's rate rule:
    /// `Err(InvalidInput)` exactly when [`line_rate_ok`] fails.
    pub fn new(category: TaxCategory, rate: Decimal) -> (r: Result<LineVat, BillingError>)
        ensures
            r is Ok <==> line_rate_ok(category, rate),
            r matches Ok(v) ==> v.category == category && v.rate == rate,
            r matches Err(e) ==> e is InvalidInput,
    {
        let this = LineVat { category, rate };
        this.validate()?;
        Ok(this)
    }

    /// Re-check the category/rate consistency of an existing value.
    pub fn validate(&self) -> (r: Result<(), BillingError>)
        ensures
            r is Ok <==> line_rate_ok(self.category, self.rate),
            r matches Err(e) ==> e is InvalidInput,
    {
        if self.category.requires_positive_rate() && !Decimal::zero().lt(&self.rate) {
            let mut reason = join3("VAT category ", self.category.code(), " requires a rate greater than zero (BR-S-05), got ");
            reason.append(self.rate.to_text().as_str());
            return Err(BillingError::InvalidInput { reason });
        }
        if self.category.requires_zero_rate() && !self.rate.is_zero() {
            let mut reason = join3("VAT category ", self.category.code(), " levies no tax, so its rate must be 0, got ");
            reason.append(self.rate.to_text().as_str());
            return Err(BillingError::InvalidInput { reason });
        }
        if self.rate.is_negative() {
            return Err(BillingError::InvalidInput {
                reason: join3("VAT rate must not be negative, got ", self.rate.to_text().as_str(), ""),
            });
        }
        Ok(())
    }

    /// The breakdown group of this position: the category and the rate with
    /// trailing zeros stripped.
    pub fn group_key(&self) -> (r: (TaxCategory, Decimal))
        ensures
            r.0 == self.category,
            (r.1.m(), r.1.s()) == strip_zeros(self.rate.m(), self.rate.s()),
    {
        (self.category, self.rate.normalize())
    }

    /// The attribution as `Display` writes it: the category's code, a space,
    /// the rate as a percentage and `%` (`S 19%`).
    pub fn to_string(&self) -> (r: String)
        ensures
            r@ == self.category.code_spec() + " "@ + decimal_text(
                rate_percent_spec(self.rate).0,
                rate_percent_spec(self.rate).1,
            ) + "%"@,
    {
        let mut s = join3(self.category.code(), " ", self.rate_percent().to_text().as_str());
        s.append("%");
        s
    }

    /// The rate as a percentage with trailing zeros stripped (`0.19` → `19`).
    pub fn rate_percent(&self) -> (r: Decimal)
        ensures
            (r.m(), r.s()) == rate_percent_spec(self.rate),
    {
        percent_of(self.rate)
    }
}

/// The BR-CO-17 outcome for a base, a rate and a stated tax amount:
/// `None` when the expected tax cannot be formed, `Some(true)` when the stated
/// tax is within one unit of it.
pub open spec fn tax_consistent(base: int, rate: Decimal, tax: int) -> Option<bool> {
    match decimal_product(base, 5, rate.m(), rate.s()) {
        None => None,
        Some((em, es)) => Some(
            match decimal_difference(tax, 5, em, es) {
                None => false,
                Some((dm, ds)) => crate::arith::abs(dm) < pow10(ds),
            },
        ),
    }
}

/// One line of the VAT breakdown: taxable base and tax for a single
/// (category, rate) pair.
#[derive(Debug, Clone, PartialEq, Eq)]
pub struct TaxBreakdownEntry {
    /// VAT category code.
    pub category: TaxCategory,
    /// The rate as a fraction.
    pub rate: Decimal,
    /// The sum of net amounts subject to this category and rate.
    pub taxable_base: Amount<5>,
    /// The tax charged on `taxable_base`.
    pub tax_amount: Amount<5>,
    /// The exemption reason as free text.
    pub exemption_reason: Option<String>,
    /// The exemption reason as a code of the VATEX list.
    pub exemption_reason_code: Option<String>,
}

impl TaxBreakdownEntry {
    /// Whether an exemption reason is stated in either form.
    pub open spec fn has_reason_spec(&self) -> bool {
        self.exemption_reason is Some || self.exemption_reason_code is Some
    }

    /// The per-category checks that come before BR-CO-17, in the order they
    /// are made; `true` when all pass.
    pub open spec fn category_rules_ok(&self) -> bool {
        &&& !self.category.carries_tax_spec() ==> self.tax_amount@ == 0
        &&& self.category.requires_exemption_reason_spec() ==> self.has_reason_spec()
        &&& self.category.forbids_exemption_reason_spec() ==> !self.has_reason_spec()
        &&& self.category == TaxCategory::Standard ==> self.rate.m() != 0
    }

    /// The grouping key of the breakdown: category and normalised rate.
    pub fn group_key(&self) -> (r: (TaxCategory, Decimal))
        ensures
            r.0 == self.category,
            (r.1.m(), r.1.s()) == strip_zeros(self.rate.m(), self.rate.s()),
    {
        (self.category, self.rate.normalize())
    }

    /// Validate this entry against the per-category rules and BR-CO-17.
    ///
    /// `Ok` exactly when the category rules hold and the stated tax is within
    /// one unit of `base × rate`. A broken category rule or an inconsistent tax
    /// is `InvalidInput`; a product that cannot be formed is `MonetaryOverflow`.
    pub fn validate(&self) -> (r: Result<(), BillingError>)
        ensures
            r is Ok <==> (self.category_rules_ok()
                && tax_consistent(self.taxable_base@ as int, self.rate, self.tax_amount@ as int) == Some(true)),
            !self.category_rules_ok() ==> (r matches Err(e) && e is InvalidInput),
            self.category_rules_ok() ==> match tax_consistent(self.taxable_base@ as int, self.rate, self.tax_amount@ as int) {
                None => r == Err::<(), BillingError>(BillingError::overflow_spec(5, None)),
                Some(true) => r is Ok,
                Some(false) => (r matches Err(e) && e is InvalidInput),
            },
    {
        if !self.category.carries_tax() && !self.tax_amount.is_zero() {
            let mut reason = join3("VAT category ", self.category.code(), " carries no tax, but the breakdown reports ");
            reason.append(self.tax_amount.to_string().as_str());
            return Err(BillingError::InvalidInput { reason });
        }
        if self.category.requires_exemption_reason() && self.exemption_reason.is_none()
            && self.exemption_reason_code.is_none() {
            return Err(BillingError::InvalidInput {
                reason: join3(
                    "VAT category ",
                    self.category.code(),
                    " requires an exemption reason text (BT-120) or reason code (BT-121)",
                ),
            });
        }
        if self.category.forbids_exemption_reason() && (self.exemption_reason.is_some()
            || self.exemption_reason_code.is_some()) {
            return Err(BillingError::InvalidInput {
                reason: join3(
                    "VAT category ",
                    self.category.code(),
                    " must not carry an exemption reason text (BT-120) or reason code (BT-121)",
                ),
            });
        }
        if self.category.requires_positive_rate() && self.rate.is_zero() {
            let mut reason = join3(
                "VAT category ",
                self.category.code(),
                " requires a rate greater than zero (BR-S-05); use ",
            );
            reason.append(TaxCategory::ZeroRated.code());
            reason.append(" for a supply taxed at zero");
            return Err(BillingError::InvalidInput { reason });
        }
        let expected = match self.taxable_base.into_decimal().checked_mul(&self.rate) {
            Some(e) => e,
            None => {
                return Err(BillingError::overflow(5, None));
            },
        };
        let within = match self.tax_amount.into_decimal().checked_sub(&expected) {
            Some(d) => d.abs().lt(&Decimal::one()),
            None => false,
        };
        if !within {
            let mut reason = join3(
                "VAT breakdown inconsistent (BR-CO-17): base ",
                self.taxable_base.to_string().as_str(),
                " \u{00d7} rate ",
            );
            reason.append(self.rate.to_text().as_str());
            reason.append(" is ");
            reason.append(expected.to_text().as_str());
            reason.append(", but the reported tax is ");
            reason.append(self.tax_amount.to_string().as_str());
            return Err(BillingError::InvalidInput { reason });
        }
        Ok(())
    }

    /// Create a breakdown entry without exemption reasons.
    pub fn new(category: TaxCategory, rate: Decimal, taxable_base: Amount<5>, tax_amount: Amount<5>) -> (r: TaxBreakdownEntry)
        ensures
            r == (TaxBreakdownEntry {
                category,
                rate,
                taxable_base,
                tax_amount,
                exemption_reason: None,
                exemption_reason_code: None,
            }),
    {
        TaxBreakdownEntry { category, rate, taxable_base, tax_amount, exemption_reason: None, exemption_reason_code: None }
    }

    /// Attach the exemption reason text.
    pub fn with_exemption_reason(self, reason: &str) -> (r: TaxBreakdownEntry)
        ensures
            (r.exemption_reason matches Some(t) && t@ == reason@),
            r.category == self.category && r.rate == self.rate,
            r.taxable_base == self.taxable_base && r.tax_amount == self.tax_amount,
            r.exemption_reason_code == self.exemption_reason_code,
    {
        TaxBreakdownEntry { exemption_reason: Some(owned(reason)), ..self }
    }

    /// Attach the exemption reason code (CEF VATEX).
    pub fn with_exemption_reason_code(self, code: &str) -> (r: TaxBreakdownEntry)
        ensures
            (r.exemption_reason_code matches Some(t) && t@ == code@),
            r.category == self.category && r.rate == self.rate,
            r.taxable_base == self.taxable_base && r.tax_amount == self.tax_amount,
            r.exemption_reason == self.exemption_reason,
    {
        TaxBreakdownEntry { exemption_reason_code: Some(owned(code)), ..self }
    }

    /// Whether an exemption reason is stated, as text or as code.
    pub fn has_exemption_reason(&self) -> (r: bool)
        ensures
            r == self.has_reason_spec(),
    {
        self.exemption_reason.is_some() || self.exemption_reason_code.is_some()
    }

    /// The rate as a percentage with trailing zeros stripped.
    pub fn rate_percent(&self) -> (r: Decimal)
        ensures
            (r.m(), r.s()) == rate_percent_spec(self.rate),
    {
        percent_of(self.rate)
    }
}

/// Two entries fall into the same breakdown group: the same category and
/// rates denoting the same number.
pub open spec fn same_group(a: TaxBreakdownEntry, b: TaxBreakdownEntry) -> bool {
    a.category == b.category && a.rate.same_value(b.rate)
}

/// Stripping trailing zeros keeps the number a decimal denotes, so two
/// normalised rates are equal exactly when the rates are.
pub proof fn lemma_normalized_same_value(a: Decimal, b: Decimal, na: Decimal, nb: Decimal)
    requires
        (na.m(), na.s()) == strip_zeros(a.m(), a.s()),
        (nb.m(), nb.s()) == strip_zeros(b.m(), b.s()),
    ensures
        na.same_value(nb) <==> a.same_value(b),
{
    crate::arith::lemma_strip_zeros(a.m(), a.s());
    crate::arith::lemma_strip_zeros(b.m(), b.s());
    let ka = (a.s() - na.s()) as nat;
    let kb = (b.s() - nb.s()) as nat;
    crate::arith::lemma_pow10_add(na.s(), ka);
    crate::arith::lemma_pow10_add(nb.s(), kb);
    crate::arith::lemma_pow10_pos(ka);
    crate::arith::lemma_pow10_pos(kb);
    assert(na.s() + ka == a.s());
    assert(nb.s() + kb == b.s());
    let pa = pow10(ka);
    let pb = pow10(kb);
    let (x, y, u, v) = (na.m(), nb.m(), pow10(na.s()), pow10(nb.s()));
    assert(a.m() == x * pa);
    assert(b.m() == y * pb);
    assert(pow10(a.s()) == u * pa);
    assert(pow10(b.s()) == v * pb);
    assert((x * v == y * u) <==> ((x * pa) * (v * pb) == (y * pb) * (u * pa))) by (nonlinear_arith)
        requires pa > 0, pb > 0;
}

/// A breakdown group as messages write it: `(S, 0.19)`, the rate with its
/// trailing zeros stripped.
pub(crate) fn group_text(category: TaxCategory, rate: Decimal) -> (r: String)
    ensures
        r@ == "("@ + category.code_spec() + ", "@ + decimal_text(
            strip_zeros(rate.m(), rate.s()).0,
            strip_zeros(rate.m(), rate.s()).1,
        ) + ")"@,
{
    let mut s = owned("(");
    s.append(category.code());
    s.append(", ");
    s.append(rate.normalize().to_text().as_str());
    s.append(")");
    s
}

/// A copy of a breakdown entry.
pub fn clone_entry(e: &TaxBreakdownEntry) -> (r: TaxBreakdownEntry)
    ensures
        r == *e,
{
    TaxBreakdownEntry {
        category: e.category,
        rate: e.rate,
        taxable_base: e.taxable_base,
        tax_amount: e.tax_amount,
        exemption_reason: crate::line_item::clone_text(&e.exemption_reason),
        exemption_reason_code: crate::line_item::clone_text(&e.exemption_reason_code),
    }
}

impl TaxBreakdownEntry {
    /// Whether `other` falls into this entry's breakdown group.
    pub fn same_group_as(&self, other: &TaxBreakdownEntry) -> (r: bool)
        ensures
            r == same_group(*self, *other),
    {
        let (ca, ra) = self.group_key();
        let (cb, rb) = other.group_key();
        proof {
            lemma_normalized_same_value(self.rate, other.rate, ra, rb);
        }
        ca == cb && ra.value_eq(&rb)
    }
}

} // verus!
