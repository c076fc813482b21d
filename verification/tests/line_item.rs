use billing::{prorate, prorate_amount, AllowanceCharge, Amount, BillingError, Decimal, LineItem, Quantity, RoundingStrategy, Sign, UnitPrice};

#[test]
fn debit_position() {
    let item = LineItem::debit("Arbeit")
        .quantity(Quantity::new(Decimal::new(1000, 0), "kWh"))
        .unit_price(UnitPrice::new(Decimal::new(28901, 5), "EUR/kWh"))
        .build()
        .unwrap();
    assert_eq!(item.net_amount, Amount::<5>::parse("289.01000").unwrap());
    assert!(!item.net_amount.is_negative());
}

#[test]
fn credit_position() {
    let item = LineItem::credit("EEG Vergütung")
        .quantity(Quantity::new(Decimal::new(500, 0), "kWh"))
        .unit_price(UnitPrice::new(Decimal::new(832, 4), "EUR/kWh"))
        .build()
        .unwrap();
    assert!(item.net_amount.is_negative());
    assert_eq!(item.net_amount, Amount::<5>::parse("-41.60000").unwrap());
}

#[test]
fn fixed_position() {
    let item = LineItem::fixed("Grundpreis", Amount::<5>::parse("8.50000").unwrap()).build().unwrap();
    assert_eq!(item.net_amount, Amount::<5>::parse("8.50000").unwrap());
}

#[test]
fn tag_filtering() {
    let item = LineItem::debit("Arbeit")
        .tag("commodity")
        .tag("energy")
        .quantity(Quantity::new(Decimal::new(100, 0), "kWh"))
        .unit_price(UnitPrice::new(Decimal::new(30, 2), "EUR/kWh"))
        .build()
        .unwrap();
    assert!(item.has_tag("commodity"));
    assert!(!item.has_tag("fixed"));
}

#[test]
fn builder_rejects_blank_descriptions_and_units() {
    assert!(matches!(
        LineItem::fixed("  ", Amount::<5>::parse("1.00000").unwrap()).build(),
        Err(BillingError::InvalidInput { .. })
    ));
    assert!(LineItem::debit("Arbeit")
        .quantity(Quantity::new(Decimal::new(1, 0), " "))
        .unit_price(UnitPrice::new(Decimal::new(1, 0), "EUR/kWh"))
        .build()
        .is_err());
    assert!(LineItem::debit("Arbeit").build().is_err());
}

#[test]
fn metadata_keeps_each_key_once() {
    let item = LineItem::fixed("Fee", Amount::from_int(1)).meta("malo", "1").meta("malo", "2").build().unwrap();
    assert_eq!(item.get_meta("malo"), Some("2"));
    assert_eq!(item.metadata.len(), 1);
    assert_eq!(item.get_meta("other"), None);
}

#[test]
fn percentage_allowance_checks_its_amount() {
    let ac = AllowanceCharge::percentage_of(Amount::parse("200.00000").unwrap(), Decimal::new(10, 2));
    assert!(ac.check_amount(Amount::parse("-20.00000").unwrap()).is_ok());
    assert!(ac.check_amount(Amount::parse("-21.00000").unwrap()).is_err());
    let item = LineItem::credit_fixed("Rabatt", Amount::parse("20.00000").unwrap()).allowance_charge(ac).build().unwrap();
    assert_eq!(item.sign, Sign::Credit);
    assert_eq!(item.net_amount, Amount::parse("-20.00000").unwrap());
}

#[test]
fn prorate_half_month() {
    let item = LineItem::fixed("Grundpreis", Amount::parse("30.00000").unwrap()).build().unwrap();
    let prorated = prorate(&item, 15, 30, RoundingStrategy::MidpointAwayFromZero).unwrap();
    assert_eq!(prorated.net_amount, Amount::parse("15.00000").unwrap());
    assert!(prorated.description.contains("prorated 15/30d"));
    assert_eq!(prorated.description, "Grundpreis (prorated 15/30d)");
    assert!(prorated.period.is_none());
}

#[test]
fn prorate_zero_period_errors() {
    let item = LineItem::fixed("Fee", Amount::parse("10.00000").unwrap()).build().unwrap();
    assert!(matches!(prorate(&item, 1, 0, RoundingStrategy::Truncate), Err(BillingError::ZeroPeriod)));
}

#[test]
fn prorate_amount_rounds_once() {
    let a = Amount::parse("10.00000").unwrap();
    assert_eq!(
        prorate_amount(a, 1, 3, RoundingStrategy::MidpointAwayFromZero).unwrap(),
        Amount::parse("3.33333").unwrap()
    );
    assert!(matches!(prorate_amount(a, 4, 3, RoundingStrategy::Floor), Err(BillingError::InvalidInput { .. })));
    assert!(matches!(prorate_amount(a, 1, 0, RoundingStrategy::Floor), Err(BillingError::ZeroPeriod)));
}

#[test]
fn a_price_per_base_quantity_is_divided_before_it_is_multiplied() {
    let price = UnitPrice::new(Decimal::new(1200, 2), "EUR/100 pcs").per(Decimal::new(100, 0));
    let line = LineItem::for_usage("Schrauben", Quantity::new(Decimal::new(250, 0), "pcs"), price).build().unwrap();
    assert_eq!(line.net_amount, Amount::<5>::parse("30.00000").unwrap());
    assert_eq!(line.unit_price.unwrap().value, Decimal::new(1200, 2));
}
