use billing::{
    Amount, BillingDocument, BillingDocumentRepr, BillingError, Decimal, DocumentMeta, FixedDiscount, FixedRateTax,
    LineItem, LineVat, ParseAmountError, PercentageDiscount, RoundingStrategy, TaxCategory, TimeOfUsePricing, TouBand,
    UnitPrice,
};

fn doc_of(net: &str) -> BillingDocument {
    let pos = vec![LineItem::fixed("Service", Amount::parse(net).unwrap()).build().unwrap()];
    BillingDocument::from_positions(DocumentMeta::default(), pos, vec![], vec![]).unwrap()
}

fn repr_with(doc: &BillingDocument, net_total: Amount<5>, prepaid: Amount<5>) -> BillingDocumentRepr {
    BillingDocumentRepr {
        meta: doc.meta.clone(),
        net_positions: doc.net_positions().to_vec(),
        tax_positions: doc.tax_positions().to_vec(),
        discount_positions: doc.discount_positions().to_vec(),
        net_total,
        tax_total: doc.tax_total(),
        gross_total: doc.gross_total(),
        discount_total: doc.discount_total(),
        tax_breakdown: doc.tax_breakdown().to_vec(),
        prepayment: doc.prepayment().clone(),
        prepaid,
        rounding: doc.rounding(),
        cash_rounding: doc.cash_rounding(),
    }
}

#[test]
fn error_messages_read_as_documented() {
    let e = BillingError::InvalidInput { reason: "bad".to_string() };
    assert_eq!(e.message(), "invalid input: bad");
    assert_eq!(BillingError::ZeroPeriod.message(), "proration requires total_days > 0");
    let e = BillingError::MonetaryOverflow { precision: 5, input_value: None };
    assert_eq!(e.message(), "monetary overflow: amount exceeds representable range for Amount<5>");
    let e = BillingError::MonetaryOverflow { precision: 2, input_value: Some(Decimal::new(125, 1)) };
    assert_eq!(e.message(), "monetary overflow: input 12.5 exceeds representable range for Amount<2>");
    let e = BillingError::ValidationFailed {
        check: "net_total".to_string(),
        actual: "1".to_string(),
        expected: "2".to_string(),
    };
    assert_eq!(e.message(), "document validation failed (net_total): expected 2, got 1");
    let e = BillingError::InvalidAllocationShares { sum: "0.9".to_string() };
    assert_eq!(e.message(), "allocation shares must sum to 1.0 \u{00b1} 1e-9 (got 0.9)");
    let e = ParseAmountError { input: "x1".to_string() };
    assert_eq!(e.message(), "cannot parse amount: \"x1\"");
}

#[test]
fn validation_reports_the_amounts_it_compared() {
    let doc = doc_of("42.00000");
    let err = BillingDocument::from_repr(repr_with(&doc, Amount::parse("99").unwrap(), doc.prepaid())).unwrap_err();
    match err {
        BillingError::ValidationFailed { check, actual, expected } => {
            assert_eq!(check, "net_total");
            assert_eq!(actual, "42.00000");
            assert_eq!(expected, "99.00000");
        },
        other => panic!("unexpected {:?}", other),
    }
}

#[test]
fn validation_rejects_a_negative_prepaid_amount_after_the_prepayment_check() {
    let doc = doc_of("10.00000");
    // The prepayment states nothing, so a stored prepaid of -1 first disagrees
    // with it.
    let err = BillingDocument::from_repr(repr_with(&doc, doc.net_total(), Amount::parse("-1").unwrap())).unwrap_err();
    match err {
        BillingError::ValidationFailed { check, actual, expected } => {
            assert_eq!(check, "prepaid_vs_prepayment");
            assert_eq!(actual, "-1.00000");
            assert_eq!(expected, "0.00000");
        },
        other => panic!("unexpected {:?}", other),
    }
}

#[test]
fn layer_and_constructor_messages_name_the_value() {
    match FixedRateTax::new("bad", Decimal::new(-19, 2)) {
        Err(BillingError::InvalidInput { reason }) => assert_eq!(reason, "FixedRateTax rate must be >= 0, got -0.19"),
        other => panic!("unexpected {:?}", other.is_ok()),
    }
    match PercentageDiscount::new("bad", Decimal::new(15, 1)) {
        Err(BillingError::InvalidInput { reason }) => {
            assert_eq!(reason, "PercentageDiscount rate must be in [0, 1], got 1.5")
        },
        other => panic!("unexpected {:?}", other.is_ok()),
    }
    match FixedDiscount::new("bad", Amount::parse("-5").unwrap()) {
        Err(BillingError::InvalidInput { reason }) => {
            assert_eq!(reason, "FixedDiscount amount must be >= 0 (it is applied as a credit), got -5.00000")
        },
        other => panic!("unexpected {:?}", other.is_ok()),
    }
    match LineVat::new(TaxCategory::Standard, Decimal::new(0, 0)) {
        Err(BillingError::InvalidInput { reason }) => {
            assert_eq!(reason, "VAT category S requires a rate greater than zero (BR-S-05), got 0")
        },
        other => panic!("unexpected {:?}", other.is_ok()),
    }
}

#[test]
fn unknown_band_lists_the_defined_bands() {
    let tou = TimeOfUsePricing::builder()
        .band(TouBand::new("HT", Amount::parse("0.3").unwrap()))
        .band(TouBand::new("NT", Amount::parse("0.2").unwrap()))
        .build()
        .unwrap();
    match tou.calculate(&[("ht", Decimal::new(1, 0))]) {
        Err(BillingError::InvalidInput { reason }) => {
            assert_eq!(reason, "TimeOfUsePricing: unknown band \"ht\" (defined bands: HT, NT)")
        },
        other => panic!("unexpected {:?}", other.is_ok()),
    }
    match TimeOfUsePricing::builder().band(TouBand::new("tax", Amount::parse("0.3").unwrap())).build() {
        Err(BillingError::InvalidInput { reason }) => assert_eq!(
            reason,
            "TimeOfUsePricing band name \"tax\" is reserved by the engine (reserved: tax, vat, levy, percentage-charge, discount, minimum-charge); rename the band"
        ),
        other => panic!("unexpected {:?}", other.is_ok()),
    }
}

#[test]
fn empty_unit_labels_are_named() {
    let err = LineItem::debit("x")
        .quantity(billing::Quantity::new(Decimal::new(1, 0), " "))
        .unit_price(UnitPrice::new(Decimal::new(1, 0), "EUR/kWh"))
        .build()
        .unwrap_err();
    match err {
        BillingError::InvalidInput { reason } => assert_eq!(reason, "LineItem quantity unit label must not be empty"),
        other => panic!("unexpected {:?}", other),
    }
}

#[test]
fn line_vat_label_is_category_and_percent() {
    let v = LineVat::new(TaxCategory::Standard, Decimal::new(1900, 4)).unwrap();
    assert_eq!(v.to_string(), "S 19%");
    let v = LineVat::new(TaxCategory::ReverseCharge, Decimal::new(0, 0)).unwrap();
    assert_eq!(v.to_string(), "AE 0%");
}

#[test]
fn rounded_unit_price_keeps_net_equal_to_gross_less_discount() {
    let p = UnitPrice::discounted(Decimal::new(95049, 4), Decimal::new(10049, 4), "EUR/pcs")
        .rounded(2, RoundingStrategy::MidpointAwayFromZero);
    assert_eq!(p.gross_price, Some(Decimal::new(950, 2)));
    assert_eq!(p.price_discount, Some(Decimal::new(100, 2)));
    assert_eq!(p.value, Decimal::new(850, 2));
    assert!(p.validate().is_ok());
    let q = UnitPrice::new(Decimal::new(1234567, 6), "EUR/kWh").rounded(3, RoundingStrategy::Truncate);
    assert_eq!(q.value, Decimal::new(1234, 3));
    assert_eq!(q.value.scale(), 3);
    assert!(UnitPrice::new(Decimal::new(1, 0), "x").checked_rounded(2, RoundingStrategy::Floor).is_some());
}

#[test]
fn vat_attribution_names_the_group_that_disagrees() {
    let pos = vec![LineItem::fixed("Service", Amount::parse("100").unwrap()).build().unwrap()];
    let taxes: Vec<Box<dyn billing::TaxLayer>> = vec![Box::new(FixedRateTax::new("VAT", Decimal::new(19, 2)).unwrap())];
    let doc = BillingDocument::from_positions(DocumentMeta::default(), pos, taxes, vec![]).unwrap();
    assert!(doc.verify_vat_attribution().is_ok());
    // A second attributed position the breakdown does not account for.
    let mut extra = doc.net_positions()[0].clone();
    extra.net_amount = Amount::parse("50").unwrap();
    let mut repr = repr_with(&doc, Amount::parse("150").unwrap(), doc.prepaid());
    repr.net_positions.push(extra);
    repr.gross_total = Amount::parse("169").unwrap();
    let bad = BillingDocument::from_repr(repr).unwrap();
    match bad.verify_vat_attribution() {
        Err(BillingError::ValidationFailed { check, actual, expected }) => {
            assert_eq!(check, "vat_attribution");
            assert_eq!(actual, "positions attributed to (S, 0.19) sum to 150.00000");
            assert_eq!(expected, "the group's taxable base 100.00000 (BR-S-08)");
        },
        other => panic!("unexpected {:?}", other),
    }
}
