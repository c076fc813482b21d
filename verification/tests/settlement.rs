use billing::{Amount, CashRounding, Currency, RoundingStrategy};

fn chf() -> CashRounding {
    CashRounding::new(Amount::<5>::parse("0.05000").unwrap(), RoundingStrategy::MidpointAwayFromZero).unwrap()
}

#[test]
fn rejects_non_positive_increment() {
    assert!(CashRounding::new(Amount::zero(), RoundingStrategy::Floor).is_err());
    assert!(CashRounding::new(Amount::parse("-0.05000").unwrap(), RoundingStrategy::Floor).is_err());
}

#[test]
fn swiss_five_rappen_table() {
    let r = chf();
    for (input, expected) in [
        ("12.30000", "12.30000"),
        ("12.31000", "12.30000"),
        ("12.32000", "12.30000"),
        ("12.33000", "12.35000"),
        ("12.34000", "12.35000"),
        ("12.35000", "12.35000"),
    ] {
        assert_eq!(r.round(Amount::parse(input).unwrap()).unwrap(), Amount::parse(expected).unwrap(), "rounding {input}");
    }
}

#[test]
fn midpoint_goes_away_from_zero_on_both_signs() {
    let r = chf();
    assert_eq!(r.round(Amount::parse("12.02500").unwrap()).unwrap(), Amount::parse("12.05000").unwrap());
    assert_eq!(r.round(Amount::parse("-12.02500").unwrap()).unwrap(), Amount::parse("-12.05000").unwrap());
}

#[test]
fn difference_is_signed_and_sums_back() {
    let r = chf();
    for input in ["12.31000", "12.34000", "12.35000", "-12.31000", "0.00000"] {
        let a = Amount::parse(input).unwrap();
        assert_eq!(
            a.checked_add(r.difference(a).unwrap()).unwrap(),
            r.round(a).unwrap(),
            "amount + difference must equal the rounded value for {input}"
        );
    }
}

#[test]
fn whole_krona_rounding() {
    let r = CashRounding::new(Amount::<5>::parse("1.00000").unwrap(), RoundingStrategy::MidpointAwayFromZero).unwrap();
    assert_eq!(r.round(Amount::parse("30.40000").unwrap()).unwrap(), Amount::parse("30.00000").unwrap());
    assert_eq!(r.round(Amount::parse("45.60000").unwrap()).unwrap(), Amount::parse("46.00000").unwrap());
}

#[test]
fn floor_and_ceiling_strategies() {
    let inc = Amount::<5>::parse("0.05000").unwrap();
    let floor = CashRounding::new(inc, RoundingStrategy::Floor).unwrap();
    let ceil = CashRounding::new(inc, RoundingStrategy::Ceiling).unwrap();
    let a = Amount::parse("12.34000").unwrap();
    assert_eq!(floor.round(a).unwrap(), Amount::parse("12.30000").unwrap());
    assert_eq!(ceil.round(a).unwrap(), Amount::parse("12.35000").unwrap());
}

#[test]
fn currency_minor_units() {
    assert_eq!(Currency::eur().minor_units(), Some(2));
    assert_eq!(Currency::jpy().minor_units(), Some(0));
    assert_eq!(Currency::eur().minor_unit_increment::<5>(), Some(Amount::parse("0.01000").unwrap()));
    assert_eq!(Currency::xxx().minor_units(), None);
}
