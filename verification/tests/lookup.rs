use billing::{Amount, Decimal, RateLookup};

fn d(n: i64) -> Decimal {
    Decimal::new(n, 0)
}

fn eeg_lookup() -> RateLookup {
    RateLookup::builder()
        .at_most(d(10), Amount::parse("0.00811").unwrap())
        .at_most(d(40), Amount::parse("0.00679").unwrap())
        .fallback(Amount::parse("0.00556").unwrap())
        .build()
        .unwrap()
}

#[test]
fn rate_at_exact_boundary() {
    let l = eeg_lookup();
    assert_eq!(l.rate_for(d(10)).unwrap(), Amount::parse("0.00811").unwrap());
    assert_eq!(l.rate_for(d(40)).unwrap(), Amount::parse("0.00679").unwrap());
}

#[test]
fn rate_within_band() {
    let l = eeg_lookup();
    assert_eq!(l.rate_for(d(8)).unwrap(), Amount::parse("0.00811").unwrap());
    assert_eq!(l.rate_for(d(25)).unwrap(), Amount::parse("0.00679").unwrap());
    assert_eq!(l.rate_for(d(100)).unwrap(), Amount::parse("0.00556").unwrap());
}

#[test]
fn rate_fallback_matches_large_value() {
    let l = eeg_lookup();
    assert_eq!(l.rate_for(d(9999)).unwrap(), Amount::parse("0.00556").unwrap());
}

#[test]
fn rate_no_fallback_returns_err_on_overshoot() {
    let l = RateLookup::builder().at_most(d(10), Amount::parse("0.00811").unwrap()).build().unwrap();
    assert!(l.rate_for(d(11)).is_err());
}

#[test]
fn build_empty_returns_err() {
    assert!(RateLookup::builder().build().is_err());
}

#[test]
fn entries_inserted_out_of_order_still_work() {
    let l = RateLookup::builder()
        .at_most(d(40), Amount::parse("0.00679").unwrap())
        .at_most(d(10), Amount::parse("0.00811").unwrap())
        .fallback(Amount::parse("0.00556").unwrap())
        .build()
        .unwrap();
    assert_eq!(l.rate_for(d(5)).unwrap(), Amount::parse("0.00811").unwrap());
    assert_eq!(l.rate_for(d(20)).unwrap(), Amount::parse("0.00679").unwrap());
    assert_eq!(l.rate_for(d(100)).unwrap(), Amount::parse("0.00556").unwrap());
}

#[test]
fn duplicate_bounds_are_rejected() {
    let r = RateLookup::builder()
        .at_most(d(10), Amount::parse("0.00811").unwrap())
        .at_most(d(10), Amount::parse("0.00679").unwrap())
        .build();
    assert!(r.is_err());
}
