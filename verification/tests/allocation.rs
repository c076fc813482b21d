use billing::{
    proportional_split, AllocationRule, Amount, BillingDocument, BillingError, CashRounding, Decimal, DocumentMeta,
    EqualAllocation, FixedRateTax, LineItem, ProportionalAllocation, RoundingStrategy, TaxLayer,
};

fn simple_doc(amount: &str) -> BillingDocument {
    let pos = vec![LineItem::fixed("Test", Amount::parse(amount).unwrap()).build().unwrap()];
    BillingDocument::from_positions(
        DocumentMeta { invoice_number: "INV-001".into(), ..Default::default() },
        pos,
        vec![],
        vec![],
    )
    .unwrap()
}

fn multi_doc() -> BillingDocument {
    let pos = vec![
        LineItem::fixed("Item A", Amount::parse("33.33333").unwrap()).build().unwrap(),
        LineItem::fixed("Item B", Amount::parse("33.33333").unwrap()).build().unwrap(),
        LineItem::fixed("Item C", Amount::parse("33.33334").unwrap()).build().unwrap(),
    ];
    BillingDocument::from_positions(DocumentMeta::default(), pos, vec![], vec![]).unwrap()
}

fn total_of(docs: &[BillingDocument], f: impl Fn(&BillingDocument) -> Amount<5>) -> Amount<5> {
    let values: Vec<Amount<5>> = docs.iter().map(f).collect();
    Amount::checked_sum(&values).unwrap()
}

#[test]
fn proportional_totals_exact_sum() {
    let doc = simple_doc("100.00000");
    let alloc =
        ProportionalAllocation::new(vec![Decimal::new(40, 2), Decimal::new(35, 2), Decimal::new(25, 2)]).unwrap();
    let docs = alloc.allocate(&doc).unwrap();
    assert_eq!(docs.len(), 3);
    let total = total_of(&docs, |d| d.net_total());
    assert_eq!(total, doc.net_total(), "net_total must not drift");
}

#[test]
fn each_doc_passes_assert_valid() {
    let doc = multi_doc();
    let alloc =
        ProportionalAllocation::new(vec![Decimal::new(40, 2), Decimal::new(35, 2), Decimal::new(25, 2)]).unwrap();
    for d in alloc.allocate(&doc).unwrap().iter() {
        d.assert_valid();
    }
}

#[test]
fn equal_two_way() {
    let doc = simple_doc("50.00000");
    let docs = EqualAllocation::new(2).unwrap().allocate(&doc).unwrap();
    assert_eq!(docs[0].net_total(), Amount::parse("25.00000").unwrap());
    assert_eq!(docs[1].net_total(), Amount::parse("25.00000").unwrap());
}

#[test]
fn equal_three_way_exact_sum_and_valid() {
    let doc = simple_doc("100.00000");
    let docs = EqualAllocation::new(3).unwrap().allocate(&doc).unwrap();
    let total = total_of(&docs, |d| d.net_total());
    assert_eq!(total, doc.net_total(), "exact sum must hold");
    for d in &docs {
        d.assert_valid();
    }
}

#[test]
fn invalid_shares_rejected() {
    assert!(ProportionalAllocation::new(vec![Decimal::new(5, 1), Decimal::new(3, 1)]).is_err());
}

#[test]
fn allocation_with_tax_preserves_gross_and_valid() {
    let pos = vec![LineItem::fixed("Charge", Amount::parse("100.00000").unwrap()).build().unwrap()];
    let taxes: Vec<Box<dyn TaxLayer>> = vec![Box::new(FixedRateTax::new("VAT", Decimal::new(20, 2)).unwrap())];
    let doc = BillingDocument::from_positions(DocumentMeta::default(), pos, taxes, vec![]).unwrap();
    let docs = EqualAllocation::new(2).unwrap().allocate(&doc).unwrap();

    let gross_sum = total_of(&docs, |d| d.gross_total());
    assert_eq!(gross_sum, doc.gross_total(), "gross_total must not drift");
    for d in &docs {
        d.assert_valid();
    }
}

#[test]
fn allocation_numbers_recipients_and_splits_the_breakdown() {
    let pos = vec![LineItem::fixed("Charge", Amount::parse("100.00000").unwrap()).build().unwrap()];
    let taxes: Vec<Box<dyn TaxLayer>> = vec![Box::new(FixedRateTax::new("VAT", Decimal::new(19, 2)).unwrap())];
    let doc = BillingDocument::from_positions(
        DocumentMeta { invoice_number: "INV-7".into(), ..Default::default() },
        pos,
        taxes,
        vec![],
    )
    .unwrap();
    let docs = EqualAllocation::new(3).unwrap().allocate(&doc).unwrap();
    assert_eq!(docs[0].meta.invoice_number, "INV-7/1");
    assert_eq!(docs[2].meta.invoice_number, "INV-7/3");
    let bases = total_of(&docs, |d| d.tax_breakdown()[0].taxable_base);
    let taxes = total_of(&docs, |d| d.tax_breakdown()[0].tax_amount);
    assert_eq!(bases, doc.tax_breakdown()[0].taxable_base);
    assert_eq!(taxes, doc.tax_breakdown()[0].tax_amount);
    // The first two recipients get a third each, the last the remainder.
    assert_eq!(docs[0].net_total(), Amount::parse("33.33333").unwrap());
    assert_eq!(docs[2].net_total(), Amount::parse("33.33334").unwrap());
}

#[test]
fn allocation_refuses_cash_rounded_documents() {
    let doc = simple_doc("10.02000")
        .with_cash_rounding(
            CashRounding::new(Amount::parse("0.05000").unwrap(), RoundingStrategy::MidpointAwayFromZero).unwrap(),
        )
        .unwrap();
    assert!(matches!(EqualAllocation::new(2).unwrap().allocate(&doc), Err(BillingError::InvalidInput { .. })));
}

#[test]
fn proportional_split_sums_exactly() {
    let parts = proportional_split(
        Decimal::new(100, 0),
        &[Decimal::new(333, 3), Decimal::new(333, 3), Decimal::new(334, 3)],
        3,
    )
    .unwrap();
    assert_eq!(parts.len(), 3);
    assert_eq!(parts[0], Decimal::new(33300, 3));
    assert_eq!(parts[1], Decimal::new(33300, 3));
    assert_eq!(parts[2], Decimal::new(33400, 3));
    assert!(proportional_split(Decimal::new(100, 0), &[], 2).is_err());
}

#[test]
fn allocated_positions_are_the_scaled_positions() {
    let doc = multi_doc();
    let docs = EqualAllocation::new(3).unwrap().allocate(&doc).unwrap();
    for d in &docs {
        assert_eq!(d.net_positions().len(), 3);
        assert_eq!(d.net_positions()[0].description, "Item A");
        assert_eq!(d.net_positions()[2].description, "Item C");
        // 33.33333 / 3, rounded half away from zero.
        assert_eq!(d.net_positions()[0].net_amount, Amount::parse("11.11111").unwrap());
        let sum = Amount::checked_sum(&d.net_positions().iter().map(|p| p.net_amount).collect::<Vec<_>>()).unwrap();
        assert_eq!(sum, d.net_total());
    }
}

#[test]
fn a_drift_worth_less_than_the_parts_is_absorbed() {
    let third = Decimal::new(333_333_333, 9);
    let parts = proportional_split(Decimal::new(10_000_000, 0), &[third, third, third], 2).unwrap();
    assert_eq!(parts, vec![Decimal::new(333_333_334, 2), Decimal::new(333_333_333, 2), Decimal::new(333_333_333, 2)]);
}
