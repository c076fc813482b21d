use billing::{
    Amount, Currency, Decimal, DiscountLayer, FixedDiscount, FixedRateTax, LineItem, PerUnitLevy, PercentageCharge,
    PercentageDiscount, Quantity, TaxLayer, UnitPrice,
};

fn make_item(amount: &str, tag: Option<&str>) -> LineItem {
    let mut b = LineItem::debit("test").fixed_amount(Amount::parse(amount).unwrap());
    if let Some(t) = tag {
        b = b.tag(t);
    }
    b.build().unwrap()
}

#[test]
fn fixed_rate_tax() {
    let positions = vec![make_item("100.00000", None)];
    let tax = FixedRateTax::new("MwSt", Decimal::new(19, 2)).unwrap();
    let item = tax.compute(&positions).unwrap();
    assert_eq!(item.net_amount, Amount::parse("19.00000").unwrap());
    assert!(item.has_tag("tax"));
}

#[test]
fn fixed_rate_tax_with_tag_filter() {
    let positions = vec![make_item("100.00000", Some("commodity")), make_item("20.00000", None)];
    let tax = FixedRateTax::new("MwSt", Decimal::new(19, 2)).unwrap().with_tag("commodity");
    let item = tax.compute(&positions).unwrap();
    // Only 100 × 0.19 = 19, not (100+20) × 0.19
    assert_eq!(item.net_amount, Amount::parse("19.00000").unwrap());
}

#[test]
fn negative_rates_are_errors_not_panics() {
    assert!(FixedRateTax::new("bad", Decimal::new(-19, 2)).is_err());
    assert!(PercentageCharge::new("bad", Decimal::new(-1, 2)).is_err());
    assert!(PercentageDiscount::new("bad", Decimal::new(-1, 2)).is_err());
    assert!(PercentageDiscount::new("bad", Decimal::new(15, 1)).is_err());
    assert!(PerUnitLevy::new("bad", Amount::parse("-0.1").unwrap(), "kWh").is_err());
    assert!(FixedDiscount::new("bad", Amount::parse("-5.0").unwrap()).is_err());
}

#[test]
fn percentage_charge_with_min() {
    let positions = vec![make_item("5.00000", None)];
    let charge = PercentageCharge::new("Platform fee", Decimal::new(5, 2))
        .unwrap()
        .with_min(Amount::parse("0.50000").unwrap());
    let item = charge.compute(&positions).unwrap();
    // 5 × 0.05 = 0.25, but min = 0.50
    assert_eq!(item.net_amount, Amount::parse("0.50000").unwrap());
}

#[test]
fn percentage_charge_with_max() {
    let positions = vec![make_item("10000.00000", None)];
    let charge = PercentageCharge::new("Fee", Decimal::new(5, 2))
        .unwrap()
        .with_max(Amount::parse("100.00000").unwrap());
    let item = charge.compute(&positions).unwrap();
    assert_eq!(item.net_amount, Amount::parse("100.00000").unwrap());
}

#[test]
fn percentage_discount() {
    let positions = vec![make_item("200.00000", None)];
    let disc = PercentageDiscount::new("Loyalty", Decimal::new(10, 2)).unwrap();
    let item = disc.compute(&positions).unwrap();
    assert!(item.net_amount.is_negative());
    assert_eq!(item.net_amount, Amount::parse("-20.00000").unwrap());
}

#[test]
fn percentage_discount_on_negative_base_is_zero_not_extra_credit() {
    // A debit position with a negative net (negative spot price) must not
    // turn a discount into an additional credit.
    let positions = vec![make_item("-200.00000", None)];
    let disc = PercentageDiscount::new("Loyalty", Decimal::new(10, 2)).unwrap();
    let item = disc.compute(&positions).unwrap();
    assert_eq!(item.net_amount, Amount::<5>::zero());
}

#[test]
fn fixed_discount() {
    let disc = FixedDiscount::new("Voucher", Amount::parse("15.00000").unwrap()).unwrap();
    let item = disc.compute(&[]).unwrap();
    assert_eq!(item.net_amount, Amount::parse("-15.00000").unwrap());
}

#[test]
fn per_unit_levy_label_uses_configured_currency() {
    let levy = PerUnitLevy::new("Stromsteuer", Amount::parse("0.02050").unwrap(), "kWh")
        .unwrap()
        .with_currency(Currency::eur());
    let positions = vec![LineItem::for_usage(
        "Arbeit",
        Quantity::new(Decimal::new(1000, 0), "kWh"),
        UnitPrice::new(Decimal::new(30, 2), "EUR/kWh"),
    )
    .build()
    .unwrap()];
    let item = levy.compute(&positions).unwrap();
    assert_eq!(item.unit_price.as_ref().unwrap().unit, "EUR/kWh");
    assert_eq!(item.net_amount, Amount::parse("20.50000").unwrap());
}

#[test]
fn per_unit_levy_defaults_to_unset_currency_not_eur() {
    let levy = PerUnitLevy::new("Levy", Amount::parse("0.01000").unwrap(), "kWh").unwrap();
    assert_eq!(levy.currency(), Currency::xxx());
}

#[test]
fn tax_layer_names_are_kept() {
    let tax = FixedRateTax::new("MwSt", Decimal::new(19, 2)).unwrap();
    assert_eq!(TaxLayer::name(&tax), "MwSt");
    let disc = FixedDiscount::new("Voucher", Amount::parse("1").unwrap()).unwrap();
    assert_eq!(DiscountLayer::name(&disc), "Voucher");
}

#[test]
fn percentage_charge_without_bounds_is_rate_times_base() {
    let positions = vec![make_item("250.00000", None), make_item("50.00000", None)];
    let charge = PercentageCharge::new("Fee", Decimal::new(2, 2)).unwrap();
    let item = charge.compute(&positions).unwrap();
    assert_eq!(item.net_amount, Amount::parse("6.00000").unwrap());
}

#[test]
fn percentage_discount_rate_of_one_is_accepted() {
    assert!(PercentageDiscount::new("all", Decimal::new(1, 0)).is_ok());
    assert!(PercentageDiscount::new("none", Decimal::new(0, 0)).is_ok());
}

#[test]
fn a_levy_sums_the_levied_quantities_and_prices_them() {
    let levy = PerUnitLevy::new("Stromsteuer", Amount::parse("0.02050").unwrap(), "kWh").unwrap();
    let positions = vec![
        LineItem::for_usage("Arbeit HT", Quantity::new(Decimal::new(1000, 0), "kWh"), UnitPrice::new(Decimal::new(30, 2), "EUR/kWh"))
            .build()
            .unwrap(),
        LineItem::for_usage("Arbeit NT", Quantity::new(Decimal::new(5005, 1), "kWh"), UnitPrice::new(Decimal::new(20, 2), "EUR/kWh"))
            .build()
            .unwrap(),
        LineItem::for_usage("Gas", Quantity::new(Decimal::new(77, 0), "m3"), UnitPrice::new(Decimal::new(1, 0), "EUR/m3"))
            .build()
            .unwrap(),
    ];
    let item = levy.compute(&positions).unwrap();
    assert_eq!(item.quantity.as_ref().unwrap().value, Decimal::new(15005, 1));
    assert_eq!(item.net_amount, Amount::parse("30.76025").unwrap());
}

#[test]
fn the_built_in_tax_layers_succeed_on_ordinary_positions() {
    let positions = vec![LineItem::fixed("Net charge", Amount::parse("100.00000").unwrap()).build().unwrap()];
    let vat = FixedRateTax::new("VAT", Decimal::new(19, 2)).unwrap();
    assert_eq!(vat.compute(&positions).unwrap().net_amount, Amount::parse("19.00000").unwrap());
    let levy = PercentageCharge::new("Levy", Decimal::new(5, 2)).unwrap();
    assert_eq!(levy.compute(&positions).unwrap().net_amount, Amount::parse("5.00000").unwrap());
    let off = PercentageDiscount::new("Off", Decimal::new(10, 2)).unwrap();
    assert_eq!(off.compute(&positions).unwrap().net_amount, Amount::parse("-10.00000").unwrap());
}
