use billing::{Amount, Currency, DocumentKind, TaxCategory};

#[test]
fn document_kind_code_roundtrip() {
    for k in [
        DocumentKind::CommercialInvoice,
        DocumentKind::PartialInvoice,
        DocumentKind::PrepaymentInvoice,
        DocumentKind::CorrectedInvoice,
        DocumentKind::CreditNote,
        DocumentKind::DebitNote,
        DocumentKind::SelfBilledInvoice,
        DocumentKind::PartialConstructionInvoice,
        DocumentKind::PartialFinalConstructionInvoice,
        DocumentKind::FinalConstructionInvoice,
    ] {
        assert_eq!(DocumentKind::from_code(k.code()), Some(k));
    }
    assert_eq!(DocumentKind::from_code(1), None);
    assert_eq!(DocumentKind::default(), DocumentKind::CommercialInvoice);
}

#[test]
fn checked_overflow() {
    let max = Amount::<5>::from_raw_units(i64::MAX);
    assert!(max.checked_add(Amount::<5>::from_raw_units(1)).is_err());
}

#[test]
fn valid_codes() {
    assert_eq!(Currency::new("EUR").unwrap(), Currency::eur());
    assert_eq!(Currency::new("eur").unwrap(), Currency::eur());
    assert_eq!(Currency::new("Usd").unwrap(), Currency::usd());
    assert_eq!(Currency::new("EUR").unwrap().code(), "EUR");
}

#[test]
fn invalid_codes_rejected() {
    for bad in ["", "E", "EU", "EURO", "E1R", "€", "  E", "eu r"] {
        assert!(Currency::new(bad).is_err(), "{bad:?} must be rejected");
    }
}

#[test]
fn default_is_xxx_not_eur() {
    assert_eq!(Currency::default(), Currency::xxx());
    assert!(Currency::default().is_unset());
    assert!(!Currency::eur().is_unset());
}

#[test]
fn code_roundtrip() {
    for c in TaxCategory::all() {
        assert_eq!(TaxCategory::from_code(c.code()), Some(c));
    }
    assert_eq!(TaxCategory::from_code("nonsense"), None);
}

#[test]
fn all_matches_the_uncl_5305_subset_br_cl_17_permits() {
    let mut codes: Vec<&str> = TaxCategory::all().iter().map(TaxCategory::code).collect();
    codes.sort_unstable();
    let mut expected = ["AE", "L", "M", "E", "S", "Z", "G", "O", "K", "B"];
    expected.sort_unstable();
    assert_eq!(codes, expected);
}

#[test]
fn split_payment_is_the_only_category_with_neither_reason_rule() {
    for c in TaxCategory::all() {
        let n = usize::from(c.requires_exemption_reason()) + usize::from(c.forbids_exemption_reason());
        if c == TaxCategory::SplitPayment {
            assert_eq!(n, 0, "B must be governed by neither rule");
        } else {
            assert_eq!(n, 1, "{} must be governed by exactly one rule", c.code());
        }
    }
}

#[test]
fn exemption_reason_required_only_for_zero_tax_categories() {
    assert!(!TaxCategory::Standard.requires_exemption_reason());
    assert!(!TaxCategory::CanaryIslands.requires_exemption_reason());
    assert!(TaxCategory::Exempt.requires_exemption_reason());
    assert!(TaxCategory::ReverseCharge.requires_exemption_reason());
    assert!(TaxCategory::Export.requires_exemption_reason());
}

#[test]
fn zero_rated_and_exempt_differ_on_the_reason_requirement() {
    assert!(!TaxCategory::ZeroRated.carries_tax());
    assert!(!TaxCategory::Exempt.carries_tax());
    assert!(TaxCategory::ZeroRated.forbids_exemption_reason());
    assert!(!TaxCategory::ZeroRated.requires_exemption_reason());
    assert!(TaxCategory::Exempt.requires_exemption_reason());
    assert!(!TaxCategory::Exempt.forbids_exemption_reason());
}

#[test]
fn display_and_parse_roundtrip() {
    let c: Currency = "gbp".parse().unwrap();
    assert_eq!(c.to_string(), "GBP");
}

#[test]
fn codes_render_as_display_writes_them() {
    assert_eq!(TaxCategory::ReverseCharge.to_string(), "AE");
    assert_eq!(DocumentKind::CreditNote.to_string(), "381");
    assert!("EU".parse::<Currency>().is_err());
}

#[test]
fn a_currency_code_reads_back_to_the_same_currency() {
    assert_eq!(Currency::new("eur"), Ok(Currency::eur()));
    for c in [Currency::xxx(), Currency::eur(), Currency::usd(), Currency::gbp(), Currency::chf(), Currency::jpy()] {
        assert_eq!(Currency::new(c.code()), Ok(c));
        assert!(c.code().chars().all(|ch| ch.is_ascii_uppercase()));
        assert_eq!(c.code().len(), 3);
    }
}
