use billing::{
    CountAggregator, Decimal, MaxAggregator, SumAggregator, UniqueCountAggregator, UsageAggregator,
    WeightedSumAggregator, LatestAggregator,
};

struct Event {
    value: u64,
    user: String,
}

fn dec_u64(v: u64) -> Decimal {
    Decimal::from_i64(v as i64)
}

#[test]
fn sum_agg() {
    let events = vec![Event { value: 100, user: "a".into() }, Event { value: 200, user: "b".into() }];
    let agg = SumAggregator::new(|e: &Event| dec_u64(e.value));
    assert_eq!(agg.aggregate(&events), Decimal::new(300, 0));
}

#[test]
fn count_agg() {
    let events = vec![Event { value: 1, user: "a".into() }, Event { value: 2, user: "b".into() }];
    assert_eq!(CountAggregator.aggregate(&events), Decimal::new(2, 0));
}

#[test]
fn unique_count() {
    let events = vec![
        Event { value: 1, user: "alice".into() },
        Event { value: 2, user: "bob".into() },
        Event { value: 3, user: "alice".into() },
    ];
    let agg = UniqueCountAggregator::new(|e: &Event| e.user.clone());
    assert_eq!(agg.aggregate(&events), Decimal::new(2, 0));
}

#[test]
fn max_agg() {
    let events = vec![
        Event { value: 10, user: "a".into() },
        Event { value: 50, user: "b".into() },
        Event { value: 30, user: "c".into() },
    ];
    let agg = MaxAggregator::new(|e: &Event| dec_u64(e.value));
    assert_eq!(agg.aggregate(&events), Decimal::new(50, 0));
}

#[test]
fn weighted_sum() {
    struct Vm {
        vcpus: u32,
        fraction: Decimal,
    }
    let vms = vec![Vm { vcpus: 4, fraction: Decimal::new(5, 1) }, Vm { vcpus: 2, fraction: Decimal::new(10, 1) }];
    let agg = WeightedSumAggregator::new(|v: &Vm| Decimal::from_i64(v.vcpus as i64), |v: &Vm| v.fraction);
    assert_eq!(agg.aggregate(&vms), Decimal::new(4, 0));
}

#[test]
fn latest_and_empty_inputs() {
    let events = vec![Event { value: 10, user: "a".into() }, Event { value: 7, user: "b".into() }];
    let agg = LatestAggregator::new(|e: &Event| dec_u64(e.value));
    assert_eq!(agg.aggregate(&events), Decimal::new(7, 0));
    let none: Vec<Event> = Vec::new();
    assert_eq!(agg.aggregate(&none), Decimal::zero());
    let max = MaxAggregator::new(|e: &Event| dec_u64(e.value));
    assert_eq!(max.aggregate(&none), Decimal::zero());
    assert_eq!(events[0].user, "a");
}
