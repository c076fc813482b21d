use billing::{
    merge_period_documents, minimum_charge, AdvancePayment, AlwaysBills, AlwaysSettles, Amount, AmountScale,
    Billing, BillingDocument, BillingDocumentRepr, BillingError, Currency, Decimal, DiscountLayer, DocumentKind,
    DocumentMeta, FixedDiscount, FixedRateTax, LineItem, PercentageCharge, PercentageDiscount, Positions, Prepayment,
    Quantity, ScalarTariff, Tariff, TariffBilling, TaxBreakdownEntry, TaxCategory, TaxLayer, UnitPrice,
};
use std::convert::Infallible;

fn simple_doc(amount: &str) -> BillingDocument {
    let pos = vec![LineItem::fixed("Test", Amount::parse(amount).unwrap()).build().unwrap()];
    BillingDocument::from_positions(
        DocumentMeta { invoice_number: "INV-001".into(), ..Default::default() },
        pos,
        vec![],
        vec![],
    )
    .unwrap()
}

fn vat(rate_hundredths: i64) -> Box<dyn TaxLayer> {
    Box::new(FixedRateTax::new("VAT", Decimal::new(rate_hundredths, 2)).unwrap())
}

#[test]
fn totals_with_tax() {
    let pos = vec![LineItem::fixed("Charge", Amount::parse("100.00000").unwrap()).build().unwrap()];
    let taxes: Vec<Box<dyn TaxLayer>> = vec![vat(20)];
    let doc = BillingDocument::from_positions(DocumentMeta::default(), pos, taxes, vec![]).unwrap();
    assert_eq!(doc.net_total(), Amount::parse("100.00000").unwrap());
    assert_eq!(doc.tax_total(), Amount::parse("20.00000").unwrap());
    assert_eq!(doc.gross_total(), Amount::parse("120.00000").unwrap());
    doc.assert_valid();
}

#[test]
fn compound_tax_accumulates_base() {
    let pos = vec![LineItem::fixed("Net charge", Amount::parse("100.00000").unwrap()).build().unwrap()];
    let taxes: Vec<Box<dyn TaxLayer>> = vec![
        Box::new(PercentageCharge::new("Levy", Decimal::new(5, 2)).unwrap()),
        Box::new(FixedRateTax::new("VAT", Decimal::new(19, 2)).unwrap()),
    ];
    let doc = BillingDocument::from_positions(DocumentMeta::default(), pos, taxes, vec![]).unwrap();
    assert_eq!(doc.net_total(), Amount::parse("100.00000").unwrap());
    assert_eq!(doc.tax_total(), Amount::parse("24.95000").unwrap());
    assert_eq!(doc.gross_total(), Amount::parse("124.95000").unwrap());
    doc.assert_valid();
}

fn repr_of(doc: &BillingDocument, net_total: Amount<5>) -> BillingDocumentRepr {
    BillingDocumentRepr {
        meta: doc.meta.clone(),
        net_positions: doc.net_positions().to_vec(),
        tax_positions: doc.tax_positions().to_vec(),
        discount_positions: doc.discount_positions().to_vec(),
        net_total,
        tax_total: doc.tax_total(),
        gross_total: doc.gross_total(),
        discount_total: doc.discount_total(),
        tax_breakdown: doc.tax_breakdown().to_vec(),
        prepayment: doc.prepayment().clone(),
        prepaid: doc.prepaid(),
        rounding: doc.rounding(),
        cash_rounding: doc.cash_rounding(),
    }
}

#[test]
fn assert_valid_full_three_checks() {
    let doc = simple_doc("42.00000");
    doc.assert_valid();

    // A stored document whose net total was corrupted fails check 1.
    let err = BillingDocument::from_repr(repr_of(&doc, Amount::parse("99.00000").unwrap())).unwrap_err();
    assert!(matches!(err, BillingError::ValidationFailed { .. }));
    if let BillingError::ValidationFailed { ref check, .. } = err {
        assert_eq!(check, "net_total");
    }
    assert!(BillingDocument::from_repr(repr_of(&doc, doc.net_total())).is_ok());
}

#[test]
fn builder_from_positions() {
    let pos = vec![LineItem::fixed("Fee", Amount::parse("50.00000").unwrap()).build().unwrap()];
    let doc = BillingDocument::builder()
        .meta(DocumentMeta { invoice_number: "B-001".into(), ..Default::default() })
        .positions(pos)
        .extra_tax(vat(20))
        .build()
        .unwrap();
    assert_eq!(doc.gross_total(), Amount::parse("60.00000").unwrap());
}

#[test]
fn with_extra_position_updates_totals() {
    let doc = simple_doc("100.00000");
    let extra = LineItem::fixed("Minimum charge shortfall", Amount::parse("50.00000").unwrap()).build().unwrap();
    let doc2 = doc.with_extra_position(extra).unwrap();
    assert_eq!(doc2.net_total(), Amount::parse("150.00000").unwrap());
}

#[test]
fn assert_valid_passes() {
    simple_doc("42.00000").assert_valid();
}

#[test]
fn minimum_not_triggered() {
    let d = simple_doc("600.00000");
    assert!(minimum_charge(&d, Amount::parse("500.00000").unwrap(), "Min").unwrap().is_none());
}

#[test]
fn minimum_triggered() {
    let d = simple_doc("200.00000");
    let item = minimum_charge(&d, Amount::parse("500.00000").unwrap(), "Mindestentgelt").unwrap().unwrap();
    assert_eq!(item.net_amount, Amount::parse("300.00000").unwrap());
    assert!(item.has_tag("minimum-charge"));
}

#[test]
fn minimum_at_boundary_not_triggered() {
    let d = simple_doc("500.00000");
    assert!(minimum_charge(&d, Amount::parse("500.00000").unwrap(), "Min").unwrap().is_none());
}

#[test]
fn merge_totals_sum() {
    let a = simple_doc("100.00000");
    let b = simple_doc("50.00000");
    let merged = merge_period_documents(a, b).unwrap();
    assert_eq!(merged.net_total(), Amount::parse("150.00000").unwrap());
    assert_eq!(merged.net_positions().len(), 2);
}

#[test]
fn merge_refuses_mixed_currencies_and_merges_breakdowns() {
    let make = |currency: Currency| {
        let pos = vec![LineItem::fixed("x", Amount::parse("10.00000").unwrap()).build().unwrap()];
        BillingDocument::from_positions(DocumentMeta { currency, ..Default::default() }, pos, vec![vat(19)], vec![])
            .unwrap()
    };
    assert!(matches!(
        merge_period_documents(make(Currency::eur()), make(Currency::usd())),
        Err(BillingError::CurrencyMismatch { .. })
    ));
    let merged = merge_period_documents(make(Currency::eur()), make(Currency::eur())).unwrap();
    assert_eq!(merged.tax_breakdown().len(), 1);
    assert_eq!(merged.tax_breakdown()[0].taxable_base, Amount::parse("20.00000").unwrap());
    assert_eq!(merged.tax_total(), Amount::parse("3.80000").unwrap());
    merged.assert_valid();
}

#[test]
fn discount_layers_reduce_the_taxable_base() {
    let pos = vec![LineItem::fixed("Fee", Amount::parse("200.00000").unwrap()).build().unwrap()];
    let discounts: Vec<Box<dyn DiscountLayer>> = vec![
        Box::new(PercentageDiscount::new("Loyalty", Decimal::new(10, 2)).unwrap()),
        Box::new(FixedDiscount::new("Voucher", Amount::parse("5.00000").unwrap()).unwrap()),
    ];
    let doc = BillingDocument::from_positions(DocumentMeta::default(), pos, vec![vat(19)], discounts).unwrap();
    assert_eq!(doc.discount_total(), Amount::parse("-25.00000").unwrap());
    assert_eq!(doc.net_total(), Amount::parse("175.00000").unwrap());
    assert_eq!(doc.tax_total(), Amount::parse("33.25000").unwrap());
    assert_eq!(doc.gross_total(), Amount::parse("208.25000").unwrap());
    assert_eq!(doc.vat_total().unwrap(), doc.tax_total());
    assert_eq!(doc.charge_total().unwrap(), Amount::zero());
    assert!(doc.tax_positions()[0].has_tag("vat"));
    doc.assert_valid();
    doc.verify_vat_attribution().unwrap();
}

#[test]
fn amount_scale_reduces_every_leaf() {
    let positions = || {
        vec![LineItem::for_usage(
            "Arbeit",
            Quantity::new(Decimal::new(1234567, 3), "kWh"),
            UnitPrice::new(Decimal::new(28901, 5), "EUR/kWh"),
        )
        .build()
        .unwrap()]
    };
    let raw = BillingDocument::builder().currency(Currency::eur()).positions(positions()).build().unwrap();
    assert!(!raw.fits_amount_scale(2));
    let violation = raw.amount_scale_violation(2).unwrap();
    assert_eq!(violation.1, Amount::parse("356.80221").unwrap());

    let scaled = BillingDocument::builder()
        .currency(Currency::eur())
        .amount_scale(AmountScale::en16931())
        .positions(positions())
        .extra_tax(vat(19))
        .build()
        .unwrap();
    assert!(scaled.fits_amount_scale(2));
    assert_eq!(scaled.net_total(), Amount::parse("356.80000").unwrap());
    assert_eq!(scaled.tax_total(), Amount::parse("67.79000").unwrap());
    assert_eq!(scaled.gross_total(), Amount::parse("424.59000").unwrap());
    scaled.assert_valid();
}

#[test]
fn reverse_twice_restores_the_amounts() {
    let doc = simple_doc("42.00000");
    let credit = doc.reverse(DocumentMeta::default()).unwrap();
    assert_eq!(credit.meta.kind, DocumentKind::CreditNote);
    assert_eq!(credit.net_total(), Amount::parse("-42.00000").unwrap());
    let back = credit.reverse(DocumentMeta::default()).unwrap();
    assert_eq!(back.net_total(), doc.net_total());
    assert_eq!(back.gross_total(), doc.gross_total());
    back.assert_valid();
}

#[test]
fn prepaid_and_advances_reach_the_amount_due() {
    let pos = vec![LineItem::fixed("Supply", Amount::parse("1000.00000").unwrap()).build().unwrap()];
    let doc = BillingDocument::from_positions(DocumentMeta::default(), pos, vec![vat(19)], vec![]).unwrap();
    let paid = doc.clone().with_prepaid(Amount::parse("100.00000").unwrap()).unwrap();
    assert_eq!(paid.amount_due().unwrap(), Amount::parse("1090.00000").unwrap());
    assert!(doc.clone().with_prepaid(Amount::parse("-1.00000").unwrap()).is_err());

    let advance = AdvancePayment::new(vec![TaxBreakdownEntry::new(
        TaxCategory::Standard,
        Decimal::new(19, 2),
        Amount::parse("500.00000").unwrap(),
        Amount::parse("95.00000").unwrap(),
    )])
    .unwrap();
    let fin = doc.with_advances(vec![advance]).unwrap();
    assert_eq!(fin.prepaid(), Amount::parse("595.00000").unwrap());
    assert_eq!(fin.advance_tax_total().unwrap(), Amount::parse("95.00000").unwrap());
    assert_eq!(fin.advance_deductions().unwrap().len(), 1);
    assert_eq!(fin.amount_due().unwrap(), Amount::parse("595.00000").unwrap());
    assert!(matches!(fin.prepayment(), Prepayment::Itemised(_)));
    fin.assert_valid();
}

#[test]
fn positions_by_tag_searches_every_bucket() {
    let pos = vec![
        LineItem::fixed("Arbeit", Amount::parse("100.00000").unwrap()).tag("commodity").build().unwrap(),
        LineItem::fixed("Grundpreis", Amount::parse("8.50000").unwrap()).tag("fixed").build().unwrap(),
    ];
    let doc = BillingDocument::from_positions(DocumentMeta::default(), pos, vec![vat(19)], vec![]).unwrap();
    let commodity = doc.positions_by_tag("commodity");
    assert_eq!(commodity.len(), 1);
    assert_eq!(commodity[0].description, "Arbeit");
    assert_eq!(doc.positions_by_tag("tax").len(), 1);
    assert_eq!(doc.all_positions().len(), 3);
}

struct Flat;

impl ScalarTariff for Flat {
    type Error = BillingError;
    type NotBillable = Infallible;

    fn positions(&self) -> Result<Positions<Infallible>, BillingError> {
        Ok(vec![LineItem::credit_fixed("EEG", Amount::from_int(400)).build().unwrap()].into())
    }
}

struct NoReading;

impl Tariff for NoReading {
    type Usage = Option<u32>;
    type Error = BillingError;
    type NotBillable = String;

    fn line_items(&self, usage: &Option<u32>) -> Result<Positions<String>, BillingError> {
        match usage {
            None => Ok(Billing::NotBillable("no meter reading".to_string())),
            Some(kwh) => Ok(vec![LineItem::fixed("Arbeit", Amount::from_int(i64::from(*kwh))).build().unwrap()].into()),
        }
    }

    fn tax_layers(&self) -> Vec<Box<dyn TaxLayer>> {
        vec![vat(19)]
    }
}

impl Flat {
    fn meta() -> DocumentMeta {
        DocumentMeta { currency: Currency::eur(), ..Default::default() }
    }
}

#[test]
fn tariffs_bill_or_say_why_not() {
    let doc = Flat.settle(Flat::meta()).unwrap();
    assert_eq!(doc.net_total(), Amount::parse("-400.00000").unwrap());
    let outcome = NoReading.try_bill(DocumentMeta::default(), &None).unwrap();
    assert_eq!(outcome.reason(), Some(&"no meter reading".to_string()));
    let billed = NoReading.try_bill(DocumentMeta::default(), &Some(100)).unwrap().into_billable().unwrap();
    assert_eq!(billed.gross_total(), Amount::parse("119.00000").unwrap());
    let _ = Flat.bill(Flat::meta(), &());
}

#[test]
fn a_discounted_document_reverses_to_a_valid_credit_note() {
    let d = BillingDocument::from_positions(
        DocumentMeta::default(),
        vec![LineItem::fixed("Fee", Amount::parse("100.00000").unwrap()).build().unwrap()],
        vec![],
        vec![Box::new(FixedDiscount::new("Voucher", Amount::parse("15.00000").unwrap()).unwrap())],
    )
    .unwrap();
    assert_eq!(d.validate(), Ok(()));
    let r = d.reverse(DocumentMeta::default()).unwrap();
    assert_eq!(r.validate(), Ok(()));
    assert_eq!(r.net_total(), Amount::parse("-85.00000").unwrap());
    assert_eq!(r.discount_total(), Amount::parse("15.00000").unwrap());
    assert!(r.discount_positions()[0].net_amount.is_positive());
}

#[test]
fn a_document_with_an_amount_that_has_no_negation_is_not_reversed() {
    let d = BillingDocument::from_positions(
        DocumentMeta::default(),
        vec![LineItem::credit_fixed("Refund", Amount::from_raw_units(i64::MIN)).build().unwrap()],
        vec![],
        vec![],
    )
    .unwrap();
    assert!(matches!(d.reverse(DocumentMeta::default()), Err(BillingError::MonetaryOverflow { .. })));
}
