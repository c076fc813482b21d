use billing::{
    build_billable, Amount, Billing, BillingDocumentBuilder, BillingError, Decimal, DiscountLayer, DocumentMeta,
    FixedRateTax, LineItem, TaxLayer,
};

type Loaded = (Vec<LineItem>, Vec<Box<dyn TaxLayer>>, Vec<Box<dyn DiscountLayer>>);

fn header() -> DocumentMeta {
    DocumentMeta { invoice_number: "R-7".into(), ..Default::default() }
}

fn answer_with_vat() -> Result<Billing<Loaded, String>, BillingError> {
    let items = vec![LineItem::fixed("Arbeit", Amount::from_int(100)).build().unwrap()];
    let taxes: Vec<Box<dyn TaxLayer>> = vec![Box::new(FixedRateTax::new("VAT", Decimal::new(19, 2)).unwrap())];
    Ok(Billing::Billable((items, taxes, vec![])))
}

#[test]
fn a_loaded_answer_builds_with_its_layers_and_keeps_the_header() {
    let loaded = BillingDocumentBuilder::default().meta(header()).load_answer(answer_with_vat()).unwrap();
    assert!(loaded.is_billable());
    let doc = build_billable(loaded).unwrap().into_billable().unwrap();
    assert_eq!(doc.meta.invoice_number, "R-7");
    assert_eq!(doc.net_total(), Amount::parse("100.00000").unwrap());
    assert_eq!(doc.tax_total(), Amount::parse("19.00000").unwrap());
    assert_eq!(doc.gross_total(), Amount::parse("119.00000").unwrap());
    assert_eq!(doc.net_positions().len(), 1);
    assert_eq!(doc.tax_positions().len(), 1);
}

#[test]
fn a_reason_passes_through_loading_and_building() {
    let answer: Result<Billing<Loaded, String>, BillingError> = Ok(Billing::NotBillable("no meter reading".to_string()));
    let loaded = BillingDocumentBuilder::default().meta(header()).load_answer(answer).unwrap();
    assert_eq!(loaded.reason(), Some(&"no meter reading".to_string()));
    let built = build_billable(loaded).unwrap();
    assert_eq!(built.reason(), Some(&"no meter reading".to_string()));
}

#[test]
fn a_tariff_error_is_handed_on() {
    let err = BillingError::InvalidInput { reason: "meter offline".into() };
    let answer: Result<Billing<Loaded, String>, BillingError> = Err(err.clone());
    let loaded = BillingDocumentBuilder::default().load_answer(answer);
    assert_eq!(loaded.err(), Some(err));
}

#[test]
fn building_an_empty_answer_fails_like_the_builder() {
    let answer: Result<Billing<Loaded, String>, BillingError> = Ok(Billing::Billable((vec![], vec![], vec![])));
    let loaded = BillingDocumentBuilder::default().load_answer(answer).unwrap();
    let direct = BillingDocumentBuilder::default().build();
    assert_eq!(build_billable(loaded).is_ok(), direct.is_ok());
}
