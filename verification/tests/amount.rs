use billing::{Amount, BillingError, Decimal, RoundingStrategy};

#[test]
fn parse_and_display() {
    let a = Amount::<5>::parse("0.03456").unwrap();
    assert_eq!(a.to_raw(), 3_456);
    assert_eq!(a.to_string(), "0.03456");
}

#[test]
fn parse_error_empty() {
    assert!(Amount::<5>::parse("").is_err());
    assert!(Amount::<5>::parse("not-a-number").is_err());
}

#[test]
fn parse_rejects_excess_non_zero_digits() {
    assert!(Amount::<5>::parse("0.123456").is_err());
    assert!(Amount::<5>::parse("1.000011").is_err());
}

#[test]
fn parse_accepts_trailing_zeros_beyond_p() {
    assert!(Amount::<5>::parse("1.100000").is_ok());
    assert!(Amount::<5>::parse("49.990000").is_ok());
    assert_eq!(Amount::<2>::parse("49.990").unwrap(), Amount::<2>::parse("49.99").unwrap());
}

#[test]
fn from_str_trait() {
    let a: Amount<5> = "0.03456".parse().unwrap();
    assert_eq!(a.to_raw(), 3_456);
}

#[test]
fn try_from_decimal_is_the_exact_conversion() {
    let d = Decimal::new(3456, 5);
    let a = Amount::<5>::try_from(d).unwrap();
    assert_eq!(a.to_raw(), 3_456);
    let too_precise = Decimal::new(34561, 6);
    assert!(matches!(Amount::<5>::try_from(too_precise), Err(BillingError::PrecisionLoss { .. })));
}

#[test]
fn mul_qty_precision() {
    let price = Amount::<5>::parse("0.03456").unwrap();
    let qty = Decimal::from_i64(100);
    let net = price.mul_qty(qty);
    assert_eq!(net, Amount::<5>::parse("3.45600").unwrap());
}

#[test]
fn checked_mul_qty_overflow() {
    let max_price = Amount::<5>::from_raw_units(i64::MAX / 2);
    assert!(max_price.checked_mul_qty(Decimal::from_i64(3)).is_err());
}

#[test]
fn round_to() {
    let a = Amount::<5>::parse("3.45678").unwrap();
    let r = a.round_to::<2>(RoundingStrategy::MidpointAwayFromZero);
    assert_eq!(r, Amount::<2>::parse("3.46").unwrap());
}

#[test]
fn sum_iterator() {
    let items = vec![
        Amount::<5>::parse("1.00000").unwrap(),
        Amount::<5>::parse("2.00000").unwrap(),
        Amount::<5>::parse("3.00000").unwrap(),
    ];
    let total = Amount::checked_sum(&items).unwrap();
    assert_eq!(total, Amount::<5>::parse("6.00000").unwrap());
}

#[test]
fn from_int_correct() {
    assert_eq!(Amount::<5>::from_int(49), Amount::<5>::parse("49.00000").unwrap());
}

#[test]
fn abs_works() {
    assert_eq!(Amount::<5>::parse("-3.50000").unwrap().abs(), Amount::<5>::parse("3.50000").unwrap());
    assert_eq!(Amount::<5>::zero().abs(), Amount::<5>::zero());
}

#[test]
fn checked_from_int_and_abs_report_overflow() {
    assert!(Amount::<5>::checked_from_int(92_233_720_368_548).is_err());
    assert!(Amount::<5>::from_raw_units(i64::MIN).checked_abs().is_err());
    assert!(Amount::<5>::from_raw_units(i64::MIN).checked_neg().is_err());
}

#[test]
fn round_to_increment_and_scale() {
    let a = Amount::<5>::parse("12.34567").unwrap();
    assert_eq!(
        a.round_to_scale(2, RoundingStrategy::MidpointAwayFromZero).unwrap(),
        Amount::parse("12.35000").unwrap()
    );
    assert!(!a.fits_scale(2));
    assert!(Amount::<5>::parse("12.35000").unwrap().fits_scale(2));
    assert_eq!(
        a.round_to_increment(Amount::parse("0.05000").unwrap(), RoundingStrategy::Floor).unwrap(),
        Amount::parse("12.30000").unwrap()
    );
}

#[test]
fn distribute_and_allocate_sum_back() {
    let a = Amount::<5>::parse("100.00000").unwrap();
    let parts = a.distribute(3).unwrap();
    assert_eq!(parts.len(), 3);
    assert_eq!(Amount::checked_sum(&parts).unwrap(), a);
    assert_eq!(parts[0].to_raw(), 3_333_334);
    let shares = a.allocate(&[1, 1, 1]).unwrap();
    assert_eq!(Amount::checked_sum(&shares).unwrap(), a);
    assert!(a.distribute(0).is_err());
}

#[test]
fn checked_abs_and_neg_name_the_value_they_refuse() {
    let min = Amount::<5>::from_raw_units(i64::MIN);
    match min.checked_abs() {
        Err(BillingError::MonetaryOverflow { precision, input_value }) => {
            assert_eq!(precision, 5);
            assert_eq!(input_value, Some(min.into_decimal()));
        }
        other => panic!("unexpected {other:?}"),
    }
    match min.checked_neg() {
        Err(BillingError::MonetaryOverflow { precision, input_value }) => {
            assert_eq!(precision, 5);
            assert_eq!(input_value, Some(min.into_decimal()));
        }
        other => panic!("unexpected {other:?}"),
    }
    assert_eq!(Amount::<5>::from_raw_units(-7).checked_abs().unwrap(), Amount::<5>::from_raw_units(7));
}

#[test]
fn an_amount_reads_back_from_its_text() {
    for raw in [0i64, 1, -1, 5, -5, 12_345_678, -99_999, i64::MAX, i64::MIN] {
        let a = Amount::<5>::from_raw_units(raw);
        assert_eq!(Amount::<5>::parse(&a.to_string()), Ok(a));
        let b = Amount::<2>::from_raw_units(raw);
        assert_eq!(Amount::<2>::parse(&b.to_string()), Ok(b));
        let c = Amount::<0>::from_raw_units(raw);
        assert_eq!(Amount::<0>::parse(&c.to_string()), Ok(c));
    }
    assert_eq!(Amount::<2>::from_raw_units(-5).to_string(), "-0.05");
}

#[test]
fn exact_to_reports_the_checked_conversion_error() {
    let big = Amount::<2>::from_raw_units(i64::MAX);
    match big.exact_to::<18>() {
        Err(BillingError::MonetaryOverflow { precision, input_value }) => {
            assert_eq!(precision, 18);
            assert_eq!(input_value, Some(big.into_decimal()));
        }
        other => panic!("unexpected {other:?}"),
    }
    assert!(matches!(Amount::<5>::parse("1.23456").unwrap().exact_to::<2>(), Err(BillingError::InvalidInput { .. })));
    assert_eq!(Amount::<5>::parse("1.23000").unwrap().exact_to::<2>().unwrap(), Amount::<2>::parse("1.23").unwrap());
}
