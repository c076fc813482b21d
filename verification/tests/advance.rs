use billing::{residual_breakdown, AdvancePayment, Amount, Decimal, Prepayment, TaxBreakdownEntry, TaxCategory};

fn rate(text: &str) -> Decimal {
    match text {
        "0.19" => Decimal::new(19, 2),
        "0.07" => Decimal::new(7, 2),
        _ => panic!("unexpected rate {text}"),
    }
}

fn entry(r: &str, base: &str, tax: &str) -> TaxBreakdownEntry {
    TaxBreakdownEntry::new(
        TaxCategory::Standard,
        rate(r),
        Amount::parse(base).unwrap(),
        Amount::parse(tax).unwrap(),
    )
}

#[test]
fn advance_derives_gross_from_components() {
    let a = AdvancePayment::new(vec![
        entry("0.19", "300.00000", "57.00000"),
        entry("0.07", "100.00000", "7.00000"),
    ])
    .unwrap();
    assert_eq!(a.net(), Amount::parse("400.00000").unwrap());
    assert_eq!(a.tax_total(), Amount::parse("64.00000").unwrap());
    assert_eq!(a.gross(), Amount::parse("464.00000").unwrap());
}

#[test]
fn advance_requires_tax_data() {
    assert!(AdvancePayment::new(vec![]).is_err());
}

#[test]
fn advance_rejects_duplicate_groups() {
    let r = AdvancePayment::new(vec![
        entry("0.19", "100.00000", "19.00000"),
        entry("0.19", "50.00000", "9.50000"),
    ]);
    assert!(r.is_err());
}

#[test]
fn residual_subtracts_per_group() {
    let full = vec![entry("0.19", "1000.00000", "190.00000")];
    let advances = vec![AdvancePayment::new(vec![entry("0.19", "750.00000", "142.50000")]).unwrap()];
    let r = residual_breakdown(&full, &advances).unwrap();
    assert_eq!(r.len(), 1);
    assert_eq!(r[0].taxable_base, Amount::parse("250.00000").unwrap());
    assert_eq!(r[0].tax_amount, Amount::parse("47.50000").unwrap());
}

#[test]
fn residual_drops_fully_settled_groups() {
    let full = vec![entry("0.19", "100.00000", "19.00000")];
    let advances = vec![AdvancePayment::new(vec![entry("0.19", "100.00000", "19.00000")]).unwrap()];
    assert!(residual_breakdown(&full, &advances).unwrap().is_empty());
}

#[test]
fn residual_rejects_over_deduction_and_unknown_groups() {
    let full = vec![entry("0.19", "100.00000", "19.00000")];
    let too_much = vec![AdvancePayment::new(vec![entry("0.19", "200.00000", "38.00000")]).unwrap()];
    assert!(residual_breakdown(&full, &too_much).is_err());

    let wrong_rate = vec![AdvancePayment::new(vec![entry("0.07", "10.00000", "0.70000")]).unwrap()];
    assert!(residual_breakdown(&full, &wrong_rate).is_err());
}

#[test]
fn residual_normalises_rates_when_matching_groups() {
    let full = vec![TaxBreakdownEntry::new(
        TaxCategory::Standard,
        Decimal::new(1900, 4),
        Amount::parse("100.00000").unwrap(),
        Amount::parse("19.00000").unwrap(),
    )];
    let advances = vec![AdvancePayment::new(vec![entry("0.19", "40.00000", "7.60000")]).unwrap()];
    let r = residual_breakdown(&full, &advances).unwrap();
    assert_eq!(r[0].taxable_base, Amount::parse("60.00000").unwrap());
}

#[test]
fn prepayment_totals_sum_the_advances() {
    let p = Prepayment::itemised(vec![
        AdvancePayment::new(vec![entry("0.19", "100.00000", "19.00000")]).unwrap(),
        AdvancePayment::new(vec![entry("0.07", "50.00000", "3.50000")]).unwrap(),
    ])
    .unwrap();
    assert_eq!(p.total().unwrap(), Amount::parse("172.50000").unwrap());
    assert_eq!(p.tax_total().unwrap(), Amount::parse("22.50000").unwrap());
    assert!(Prepayment::total_of(Amount::parse("-1.00000").unwrap()).is_err());
}
