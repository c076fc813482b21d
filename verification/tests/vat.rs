use billing::{Amount, Decimal, LineVat, TaxBreakdownEntry, TaxCategory};

#[test]
fn split_payment_carries_tax_unlike_reverse_charge() {
    assert!(TaxCategory::SplitPayment.carries_tax());
    assert!(!TaxCategory::ReverseCharge.carries_tax());

    let entry = TaxBreakdownEntry::new(
        TaxCategory::SplitPayment,
        Decimal::new(22, 2),
        Amount::parse("1000.00000").unwrap(),
        Amount::parse("220.00000").unwrap(),
    );
    assert!(entry.validate().is_ok(), "B must be allowed a non-zero BT-117");
}

#[test]
fn only_standard_requires_a_positive_rate() {
    assert!(LineVat::new(TaxCategory::Standard, Decimal::new(0, 0)).is_err());
    assert!(LineVat::new(TaxCategory::CanaryIslands, Decimal::new(0, 0)).is_ok());
    assert!(LineVat::new(TaxCategory::CeutaMelilla, Decimal::new(0, 0)).is_ok());
    assert!(LineVat::new(TaxCategory::SplitPayment, Decimal::new(0, 0)).is_ok());
    assert!(LineVat::new(TaxCategory::SplitPayment, Decimal::new(22, 2)).is_ok());
    // Zero-tax categories must not carry a rate (BR-Z-05 and siblings).
    for c in TaxCategory::all().into_iter().filter(|c| !c.carries_tax()) {
        assert!(LineVat::new(c, Decimal::new(19, 2)).is_err(), "{:?} must reject a rate", c);
        assert!(LineVat::new(c, Decimal::new(0, 0)).is_ok());
    }
}

#[test]
fn group_key_normalises_trailing_zeros() {
    let a = TaxBreakdownEntry::new(TaxCategory::Standard, Decimal::new(19, 2), Amount::zero(), Amount::zero());
    let b = TaxBreakdownEntry::new(TaxCategory::Standard, Decimal::new(1900, 4), Amount::zero(), Amount::zero());
    assert_eq!(a.group_key(), b.group_key(), "0.19 and 0.1900 are one group");
    assert_eq!(a.group_key().1.scale(), 2);
    assert_eq!(b.group_key().1.scale(), 2);
}

#[test]
fn validate_enforces_category_rules() {
    let taxed = Amount::<5>::parse("19.00000").unwrap();
    // Zero-tax category with a non-zero amount.
    let bad = TaxBreakdownEntry::new(TaxCategory::ReverseCharge, Decimal::zero(), Amount::zero(), taxed);
    assert!(bad.validate().is_err());
    // Missing required reason.
    let bad = TaxBreakdownEntry::new(TaxCategory::Exempt, Decimal::zero(), Amount::zero(), Amount::zero());
    assert!(bad.validate().is_err());
    assert!(bad.with_exemption_reason("Art. 132").validate().is_ok());
    // Forbidden reason present.
    let bad = TaxBreakdownEntry::new(TaxCategory::Standard, Decimal::new(19, 2), Amount::zero(), Amount::zero())
        .with_exemption_reason("nope");
    assert!(bad.validate().is_err());
}

#[test]
fn rate_percent_scales_by_one_hundred() {
    let vat = LineVat::new(TaxCategory::Standard, Decimal::new(19, 2)).unwrap();
    assert_eq!(vat.rate_percent(), Decimal::new(19, 0));
}
