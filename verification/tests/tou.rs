use billing::{Amount, BillingError, Decimal, DynamicPricing, TimeOfUsePricing, TouBand};

#[test]
fn tou_two_bands_with_unit() {
    let tou = TimeOfUsePricing::builder()
        .unit("kWh")
        .band(TouBand::new("HT", Amount::parse("0.32000").unwrap()))
        .band(TouBand::new("NT", Amount::parse("0.18000").unwrap()))
        .build()
        .unwrap();
    let items = tou.calculate(&[("HT", Decimal::new(8234, 1)), ("NT", Decimal::new(4111, 1))]).unwrap();
    assert_eq!(items.len(), 2);
    assert_eq!(items[0].unit_label(), Some("kWh"));
    // HT: 823.4 × 0.32 = 263.488
    assert_eq!(items[0].net_amount, Amount::parse("263.48800").unwrap());
    // NT: 411.1 × 0.18 = 73.998
    assert_eq!(items[1].net_amount, Amount::parse("73.99800").unwrap());
}

#[test]
fn tou_default_unit_is_units() {
    let tou = TimeOfUsePricing::builder()
        .band(TouBand::new("peak", Amount::parse("0.10000").unwrap()))
        .build()
        .unwrap();
    let items = tou.calculate(&[("peak", Decimal::new(100, 0))]).unwrap();
    assert_eq!(items[0].unit_label(), Some("units"));
}

#[test]
fn dynamic_pricing_weighted_avg() {
    let dp = DynamicPricing::builder()
        .unit("kWh")
        .interval(Decimal::new(100, 0), Amount::parse("0.10000").unwrap())
        .interval(Decimal::new(200, 0), Amount::parse("0.20000").unwrap())
        .build()
        .unwrap();
    let item = dp.calculate().unwrap();
    assert_eq!(item.quantity_value(), Some(Decimal::new(300, 0)));
    assert_eq!(item.unit_label(), Some("kWh"));
    assert_eq!(item.net_amount, Amount::parse("50.00000").unwrap());
}

#[test]
fn tou_unknown_band_is_an_error() {
    let tou = TimeOfUsePricing::builder()
        .band(TouBand::new("peak", Amount::parse("0.10000").unwrap()))
        .build()
        .unwrap();
    assert!(tou.calculate(&[("offpeak", Decimal::new(1, 0))]).is_err());
    assert!(tou.calculate(&[("peak", Decimal::new(-1, 0))]).is_err());
}

#[test]
fn tou_zero_usage_gives_no_position() {
    let tou = TimeOfUsePricing::builder()
        .band(TouBand::new("peak", Amount::parse("0.10000").unwrap()))
        .build()
        .unwrap();
    let items = tou.calculate(&[("peak", Decimal::new(0, 0))]).unwrap();
    assert!(items.is_empty());
}

#[test]
fn tou_without_bands_is_refused() {
    assert!(TimeOfUsePricing::builder().build().is_err());
    assert!(DynamicPricing::builder().build().is_err());
}

#[test]
fn the_first_entry_that_cannot_be_priced_decides_the_error() {
    let tou = TimeOfUsePricing::builder()
        .band(TouBand::new("HT", Amount::from_raw_units(i64::MAX)))
        .band(TouBand::new("NT", Amount::parse("0.18000").unwrap()))
        .build()
        .unwrap();
    let refused_first = tou.calculate(&[("NT", Decimal::new(-1, 0)), ("HT", Decimal::new(1000, 0))]);
    assert!(matches!(refused_first, Err(BillingError::InvalidInput { .. })));
    let unknown_first = tou.calculate(&[("XX", Decimal::new(1, 0)), ("HT", Decimal::new(1000, 0))]);
    assert!(matches!(unknown_first, Err(BillingError::InvalidInput { .. })));
    let overflow_first = tou.calculate(&[("HT", Decimal::new(1000, 0)), ("NT", Decimal::new(-1, 0))]);
    assert!(matches!(overflow_first, Err(BillingError::MonetaryOverflow { .. })));
    let zero_skipped = tou.calculate(&[("HT", Decimal::new(0, 0)), ("NT", Decimal::new(10, 0))]).unwrap();
    assert_eq!(zero_skipped.len(), 1);
    assert_eq!(zero_skipped[0].net_amount, Amount::parse("1.80000").unwrap());
}
