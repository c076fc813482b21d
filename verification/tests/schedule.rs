use billing::{Amount, BillingError, Decimal, TariffBand, TariffSchedule};

#[test]
fn graduated_two_tiers_with_unit() {
    let sched = TariffSchedule::graduated()
        .unit("kWh")
        .band(TariffBand::up_to(Decimal::new(500, 0), Amount::parse("0.32000").unwrap()))
        .band(TariffBand::over(Decimal::new(500, 0), Amount::parse("0.28000").unwrap()))
        .build()
        .unwrap();
    let items = sched.split(Decimal::new(12345, 1)).unwrap();
    assert_eq!(items.len(), 2);
    assert_eq!(items[0].unit_label(), Some("kWh"));
    assert_eq!(items[0].net_amount, Amount::parse("160.00000").unwrap());
    assert_eq!(items[1].net_amount, Amount::parse("205.66000").unwrap());
    assert_eq!(items[0].description, "Tier 1 (up to 500 kWh)");
    assert_eq!(items[1].description, "Tier 2 (over 500 kWh)");
}

#[test]
fn volume_top_tier() {
    let sched = TariffSchedule::volume()
        .unit("seats")
        .band(TariffBand::up_to(Decimal::new(1000, 0), Amount::parse("0.32000").unwrap()))
        .band(TariffBand::over(Decimal::new(1000, 0), Amount::parse("0.28000").unwrap()))
        .build()
        .unwrap();
    let items = sched.split(Decimal::new(12345, 1)).unwrap();
    assert_eq!(items.len(), 1);
    assert_eq!(items[0].unit_label(), Some("seats"));
    assert_eq!(items[0].net_amount, Amount::parse("345.66000").unwrap());
}

#[test]
fn block_rounds_up() {
    let sched = TariffSchedule::block()
        .unit("GB")
        .band(TariffBand::block(Decimal::new(100, 0), Amount::parse("1.00000").unwrap()))
        .build()
        .unwrap();
    let items = sched.split(Decimal::new(450, 0)).unwrap();
    assert_eq!(items.len(), 1);
    assert_eq!(items[0].net_amount, Amount::parse("5.00000").unwrap());
    assert_eq!(items[0].unit_label(), Some("100-GB-block"));
}

#[test]
fn capacity_peak() {
    let sched = TariffSchedule::capacity()
        .unit("Mbps")
        .band(TariffBand::up_to(Decimal::new(50, 0), Amount::parse("5.00000").unwrap()))
        .band(TariffBand::over(Decimal::new(50, 0), Amount::parse("10.00000").unwrap()))
        .build()
        .unwrap();
    let item = sched.apply_peak(Decimal::new(634, 1)).unwrap();
    assert_eq!(item.net_amount, Amount::parse("10.00000").unwrap());
    assert_eq!(item.description, "Capacity charge (peak 63.400 Mbps)");
    assert!(sched.split(Decimal::new(1, 0)).is_err());
}

#[test]
fn non_contiguous_bands_rejected() {
    let result = TariffSchedule::graduated()
        .band(TariffBand::up_to(Decimal::new(100, 0), Amount::parse("1.00000").unwrap()))
        .band(TariffBand::between(Decimal::new(200, 0), Decimal::new(300, 0), Amount::parse("0.80000").unwrap()))
        .band(TariffBand::over(Decimal::new(300, 0), Amount::parse("0.60000").unwrap()))
        .build();
    assert!(result.is_err(), "gap between 100 and 200 should be rejected");
}

#[test]
fn default_unit_is_units() {
    let sched = TariffSchedule::graduated()
        .band(TariffBand::up_to(Decimal::new(100, 0), Amount::parse("1.00000").unwrap()))
        .build()
        .unwrap();
    assert_eq!(sched.unit(), "units");
    let items = sched.split(Decimal::new(50, 0)).unwrap();
    assert_eq!(items[0].unit_label(), Some("units"));
}

#[test]
fn zero_block_size_rejected() {
    let result = TariffSchedule::block()
        .band(TariffBand::block(Decimal::new(0, 0), Amount::parse("1.00000").unwrap()))
        .build();
    assert!(result.is_err(), "block_size=0 must be rejected");
}

#[test]
fn negative_block_size_rejected() {
    let result = TariffSchedule::block()
        .band(TariffBand::block(Decimal::new(-1, 0), Amount::parse("1.00000").unwrap()))
        .build();
    assert!(result.is_err(), "negative block_size must be rejected");
}

#[test]
fn negative_quantity_and_free_tier() {
    let sched = TariffSchedule::graduated()
        .unit("kWh")
        .band(TariffBand::free_up_to(Decimal::new(100, 0)))
        .band(TariffBand::over(Decimal::new(100, 0), Amount::parse("0.30000").unwrap()))
        .build()
        .unwrap();
    assert!(sched.split(Decimal::new(-1, 0)).is_err());
    let items = sched.checked_split(Decimal::new(150, 0)).unwrap().unwrap();
    assert_eq!(items.len(), 2);
    assert_eq!(items[0].description, "Free tier (first 100)");
    assert_eq!(items[0].net_amount, Amount::zero());
    assert_eq!(items[1].net_amount, Amount::parse("15.00000").unwrap());
}

#[test]
fn a_blank_unit_label_is_rejected() {
    let built = TariffSchedule::graduated()
        .unit("  ")
        .band(TariffBand::up_to(Decimal::new(100, 0), Amount::parse("1.00000").unwrap()))
        .build();
    assert!(matches!(built, Err(BillingError::InvalidInput { .. })));
    let empty = TariffSchedule::volume()
        .unit("")
        .band(TariffBand::up_to(Decimal::new(100, 0), Amount::parse("1.00000").unwrap()))
        .build();
    assert!(empty.is_err());
}
