//! Usage aggregators: reduce the usage events of a period to one billing
//! quantity — sum, count, distinct count, maximum, latest and time-weighted
//! sum.
use vstd::prelude::*;

use std::collections::HashSet;
use std::hash::Hash;
use std::marker::PhantomData;

use crate::allocation::{decimal_total, pair};
use crate::arith::lemma_decimal_order_trans;
use crate::decimal::{decimal_product, decimal_sum, Decimal};

verus! {

/// Reduce a slice of usage events to a single quantity.
pub trait UsageAggregator<E> {
    /// Whether `events` can be aggregated: every extractor accepts every
    /// event and no arithmetic step overflows, whatever the extractors
    /// return.
    spec fn aggregable(&self, events: Seq<E>) -> bool;

    /// Aggregate `events` into one quantity.
    fn aggregate(&self, events: &[E]) -> Decimal
        requires
            self.aggregable(events@),
    ;
}

/// `f` accepts every event.
pub open spec fn accepts_all<E, R, F: Fn(&E) -> R>(f: F, events: Seq<E>) -> bool {
    forall|i: int| 0 <= i < events.len() ==> f.requires((&events[i],))
}

/// `vals` are values `f` may return for `events`, one per event, in order.
pub open spec fn outputs<E, R, F: Fn(&E) -> R>(f: F, events: Seq<E>, vals: Seq<R>) -> bool {
    vals.len() == events.len() && forall|i: int| 0 <= i < events.len() ==> f.ensures((&events[i],), vals[i])
}

/// Summing any values `f` may return for any prefix of `events` never
/// overflows.
pub open spec fn sums_formable<E, F: Fn(&E) -> Decimal>(f: F, events: Seq<E>) -> bool {
    forall|k: int, vals: Seq<Decimal>|
        #![trigger outputs(f, events.take(k), vals)]
        0 <= k <= events.len() && outputs(f, events.take(k), vals) ==> decimal_total(vals) is Some
}

/// The sum of `Decimal` values as `Iterator::sum` forms it: from zero, one
/// addition at a time.
pub struct SumAggregator<E, F: Fn(&E) -> Decimal> {
    value_fn: F,
    marker: PhantomData<E>,
}

impl<E, F: Fn(&E) -> Decimal> SumAggregator<E, F> {
    /// The extractor.
    pub closed spec fn value_fn_spec(&self) -> F {
        self.value_fn
    }

    /// A sum of the values `value_fn` extracts.
    pub fn new(value_fn: F) -> (a: SumAggregator<E, F>)
        ensures
            a.value_fn_spec() == value_fn,
    {
        SumAggregator { value_fn, marker: PhantomData }
    }
}

impl<E, F: Fn(&E) -> Decimal> UsageAggregator<E> for SumAggregator<E, F> {
    open spec fn aggregable(&self, events: Seq<E>) -> bool {
        accepts_all(self.value_fn_spec(), events) && sums_formable(self.value_fn_spec(), events)
    }

    /// The sum of the extracted values.
    fn aggregate(&self, events: &[E]) -> (r: Decimal)
        ensures
            exists|vals: Seq<Decimal>| #[trigger] outputs(self.value_fn_spec(), events@, vals) && decimal_total(vals) == Some(
                pair(r),
            ),
    {
        let mut sum = Decimal::zero();
        let ghost mut vals: Seq<Decimal> = Seq::empty();
        let mut i: usize = 0;
        assert(events@.take(0) =~= Seq::<E>::empty());
        while i < events.len()
            invariant
                i <= events@.len(),
                self.aggregable(events@),
                outputs(self.value_fn, events@.take(i as int), vals),
                decimal_total(vals) == Some(pair(sum)),
            decreases events.len() - i,
        {
            let v = (self.value_fn)(&events[i]);
            proof {
                let next = vals.push(v);
                assert(events@.take(i as int + 1).drop_last() =~= events@.take(i as int));
                assert(outputs(self.value_fn, events@.take(i as int + 1), next));
                assert(decimal_total(next) is Some);
                assert(next.drop_last() =~= vals);
                vals = next;
            }
            sum = sum.checked_add(&v).unwrap();
            i = i + 1;
        }
        assert(events@.take(events@.len() as int) =~= events@);
        sum
    }
}

/// The number of events.
pub struct CountAggregator;

impl<E> UsageAggregator<E> for CountAggregator {
    open spec fn aggregable(&self, events: Seq<E>) -> bool {
        true
    }

    /// The number of events, at scale 0.
    fn aggregate(&self, events: &[E]) -> (r: Decimal)
        ensures
            r.m() == events@.len() && r.s() == 0,
    {
        Decimal::from_usize(events.len())
    }
}

/// The number of distinct keys among the events.
#[verifier::reject_recursive_types(K)]
#[verifier::reject_recursive_types(E)]
pub struct UniqueCountAggregator<E, K: Hash + Eq, F: Fn(&E) -> K> {
    key_fn: F,
    marker: PhantomData<(E, K)>,
}

impl<E, K: Hash + Eq, F: Fn(&E) -> K> UniqueCountAggregator<E, K, F> {
    /// The key extractor.
    pub closed spec fn key_fn_spec(&self) -> F {
        self.key_fn
    }

    /// A count of the distinct keys `key_fn` extracts.
    pub fn new(key_fn: F) -> (a: UniqueCountAggregator<E, K, F>)
        ensures
            a.key_fn_spec() == key_fn,
    {
        UniqueCountAggregator { key_fn, marker: PhantomData }
    }
}

impl<E, K: Hash + Eq, F: Fn(&E) -> K> UsageAggregator<E> for UniqueCountAggregator<E, K, F> {
    open spec fn aggregable(&self, events: Seq<E>) -> bool {
        accepts_all(self.key_fn_spec(), events) && vstd::std_specs::hash::obeys_key_model::<K>()
    }

    /// The number of distinct extracted keys, at scale 0.
    fn aggregate(&self, events: &[E]) -> (r: Decimal)
        ensures
            exists|keys: Seq<K>| #[trigger] outputs(self.key_fn_spec(), events@, keys) && r.m() == keys.to_set().len()
                && r.s() == 0,
    {
        broadcast use vstd::std_specs::hash::group_hash_axioms;
        let mut set: HashSet<K> = HashSet::new();
        let ghost mut keys: Seq<K> = Seq::empty();
        let mut i: usize = 0;
        assert(events@.take(0) =~= Seq::<E>::empty());
        assert(keys.to_set() =~= Set::<K>::empty());
        while i < events.len()
            invariant
                i <= events@.len(),
                self.aggregable(events@),
                outputs(self.key_fn, events@.take(i as int), keys),
                set@ == keys.to_set(),
            decreases events.len() - i,
        {
            let k = (self.key_fn)(&events[i]);
            proof {
                let next = keys.push(k);
                assert(events@.take(i as int + 1).drop_last() =~= events@.take(i as int));
                assert(outputs(self.key_fn, events@.take(i as int + 1), next));
                assert(next.to_set() =~= keys.to_set().insert(k)) by {
                    vstd::seq_lib::lemma_seq_contains_after_push(keys, k, k);
                    assert forall|x: K| next.to_set().contains(x) <==> keys.to_set().insert(k).contains(x) by {
                        if next.contains(x) && x != k {
                            let j = choose|j: int| 0 <= j < next.len() && next[j] == x;
                            assert(keys[j] == x);
                        }
                        if keys.contains(x) {
                            let j = choose|j: int| 0 <= j < keys.len() && keys[j] == x;
                            assert(next[j] == x);
                        }
                        if x == k {
                            assert(next[next.len() - 1] == x);
                        }
                    }
                }
                keys = next;
            }
            set.insert(k);
            i = i + 1;
        }
        assert(events@.take(events@.len() as int) =~= events@);
        Decimal::from_usize(set.len())
    }
}

/// The maximum of values as `Iterator::max_by` keeps it: of equal maxima,
/// the last.
pub open spec fn max_last(vals: Seq<Decimal>) -> Decimal
    decreases vals.len(),
{
    if vals.len() <= 1 {
        vals[0]
    } else {
        let m = max_last(vals.drop_last());
        if vals.last().less_than(m) {
            m
        } else {
            vals.last()
        }
    }
}

/// The maximum of a non-empty list of values is one of them, and no value
/// of the list exceeds it.
pub proof fn lemma_max_is_greatest(vals: Seq<Decimal>)
    requires
        vals.len() > 0,
    ensures
        forall|k: int| 0 <= k < vals.len() ==> !max_last(vals).less_than(#[trigger] vals[k]),
        exists|k: int| 0 <= k < vals.len() && max_last(vals) == #[trigger] vals[k],
    decreases vals.len(),
{
    if vals.len() == 1 {
        assert(max_last(vals) == vals[0]);
        assert(!vals[0].less_than(vals[0]));
    } else {
        let rest = vals.drop_last();
        lemma_max_is_greatest(rest);
        let m = max_last(rest);
        let l = vals.last();
        let k0 = choose|k: int| 0 <= k < rest.len() && m == #[trigger] rest[k];
        assert forall|k: int| 0 <= k < vals.len() implies !max_last(vals).less_than(#[trigger] vals[k]) by {
            if k < vals.len() - 1 {
                assert(vals[k] == rest[k]);
                assert(!m.less_than(rest[k]));
                lemma_decimal_order_trans(vals[k], m, l);
            } else {
                assert(vals[k] == l);
                lemma_decimal_order_trans(l, m, l);
            }
        }
        if l.less_than(m) {
            assert(vals[k0] == rest[k0]);
        } else {
            assert(vals[vals.len() - 1] == l);
        }
    }
}

/// The largest extracted value.
pub struct MaxAggregator<E, F: Fn(&E) -> Decimal> {
    value_fn: F,
    marker: PhantomData<E>,
}

impl<E, F: Fn(&E) -> Decimal> MaxAggregator<E, F> {
    /// The extractor.
    pub closed spec fn value_fn_spec(&self) -> F {
        self.value_fn
    }

    /// The maximum of the values `value_fn` extracts.
    pub fn new(value_fn: F) -> (a: MaxAggregator<E, F>)
        ensures
            a.value_fn_spec() == value_fn,
    {
        MaxAggregator { value_fn, marker: PhantomData }
    }
}

impl<E, F: Fn(&E) -> Decimal> UsageAggregator<E> for MaxAggregator<E, F> {
    open spec fn aggregable(&self, events: Seq<E>) -> bool {
        accepts_all(self.value_fn_spec(), events)
    }

    /// The largest extracted value (the last of equal maxima); zero for no
    /// events.
    fn aggregate(&self, events: &[E]) -> (r: Decimal)
        ensures
            events@.len() == 0 ==> r.m() == 0 && r.s() == 0,
            events@.len() > 0 ==> exists|vals: Seq<Decimal>| #[trigger] outputs(self.value_fn_spec(), events@, vals) && r
                == max_last(vals),
            events@.len() > 0 ==> exists|vals: Seq<Decimal>| #[trigger] outputs(self.value_fn_spec(), events@, vals) && (
            forall|k: int| 0 <= k < vals.len() ==> !r.less_than(#[trigger] vals[k])) && (exists|k: int|
                0 <= k < vals.len() && r == #[trigger] vals[k]),
    {
        if events.len() == 0 {
            return Decimal::zero();
        }
        let mut best = (self.value_fn)(&events[0]);
        let ghost mut vals: Seq<Decimal> = seq![best];
        let mut i: usize = 1;
        assert(events@.take(1) =~= seq![events@[0]]);
        while i < events.len()
            invariant
                1 <= i <= events@.len(),
                self.aggregable(events@),
                outputs(self.value_fn, events@.take(i as int), vals),
                best == max_last(vals),
            decreases events.len() - i,
        {
            let v = (self.value_fn)(&events[i]);
            proof {
                let next = vals.push(v);
                assert(events@.take(i as int + 1).drop_last() =~= events@.take(i as int));
                assert(outputs(self.value_fn, events@.take(i as int + 1), next));
                assert(next.drop_last() =~= vals);
                vals = next;
            }
            if !v.lt(&best) {
                best = v;
            }
            i = i + 1;
        }
        assert(events@.take(events@.len() as int) =~= events@);
        proof {
            lemma_max_is_greatest(vals);
        }
        best
    }
}

/// The value of the last event.
pub struct LatestAggregator<E, F: Fn(&E) -> Decimal> {
    value_fn: F,
    marker: PhantomData<E>,
}

impl<E, F: Fn(&E) -> Decimal> LatestAggregator<E, F> {
    /// The extractor.
    pub closed spec fn value_fn_spec(&self) -> F {
        self.value_fn
    }

    /// The value `value_fn` extracts from the last event.
    pub fn new(value_fn: F) -> (a: LatestAggregator<E, F>)
        ensures
            a.value_fn_spec() == value_fn,
    {
        LatestAggregator { value_fn, marker: PhantomData }
    }
}

impl<E, F: Fn(&E) -> Decimal> UsageAggregator<E> for LatestAggregator<E, F> {
    open spec fn aggregable(&self, events: Seq<E>) -> bool {
        events.len() > 0 ==> self.value_fn_spec().requires((&events.last(),))
    }

    /// The value of the last event; zero for no events.
    fn aggregate(&self, events: &[E]) -> (r: Decimal)
        ensures
            events@.len() == 0 ==> r.m() == 0 && r.s() == 0,
            events@.len() > 0 ==> self.value_fn_spec().ensures((&events@.last(),), r),
    {
        if events.len() == 0 {
            return Decimal::zero();
        }
        (self.value_fn)(&events[events.len() - 1])
    }
}

/// `Σ value × duration` as `Iterator::sum` forms it over the products;
/// `None` where a product or a sum overflows.
pub open spec fn weighted_total(vals: Seq<Decimal>, durs: Seq<Decimal>) -> Option<(int, nat)>
    decreases vals.len(),
{
    if vals.len() == 0 || durs.len() != vals.len() {
        if vals.len() == 0 {
            Some((0int, 0nat))
        } else {
            None
        }
    } else {
        match (weighted_total(vals.drop_last(), durs.drop_last()), decimal_product(
            vals.last().m(),
            vals.last().s(),
            durs.last().m(),
            durs.last().s(),
        )) {
            (Some((m, k)), Some((pm, ps))) => decimal_sum(m, k, pm, ps),
            _ => None,
        }
    }
}

/// The time-weighted sum `Σ value × duration`, the duration a fraction of
/// the period.
pub struct WeightedSumAggregator<E, F: Fn(&E) -> Decimal, G: Fn(&E) -> Decimal> {
    /// Extracts the value of an event.
    pub value_fn: F,
    /// Extracts the fraction of the period an event was active.
    pub duration_fn: G,
    marker: PhantomData<E>,
}

impl<E, F: Fn(&E) -> Decimal, G: Fn(&E) -> Decimal> WeightedSumAggregator<E, F, G> {
    /// The value extractor.
    pub closed spec fn value_fn_spec(&self) -> F {
        self.value_fn
    }

    /// The duration extractor.
    pub closed spec fn duration_fn_spec(&self) -> G {
        self.duration_fn
    }

    /// A time-weighted sum of the values `value_fn` extracts.
    pub fn new(value_fn: F, duration_fn: G) -> (a: WeightedSumAggregator<E, F, G>)
        ensures
            a.value_fn_spec() == value_fn && a.duration_fn_spec() == duration_fn,
    {
        WeightedSumAggregator { value_fn, duration_fn, marker: PhantomData }
    }
}

impl<E, F: Fn(&E) -> Decimal, G: Fn(&E) -> Decimal> UsageAggregator<E> for WeightedSumAggregator<E, F, G> {
    open spec fn aggregable(&self, events: Seq<E>) -> bool {
        &&& accepts_all(self.value_fn_spec(), events) && accepts_all(self.duration_fn_spec(), events)
        &&& forall|k: int, vals: Seq<Decimal>, durs: Seq<Decimal>|
            #![trigger outputs(self.value_fn_spec(), events.take(k), vals), outputs(self.duration_fn_spec(), events.take(k), durs)]
            0 <= k <= events.len() && outputs(self.value_fn_spec(), events.take(k), vals) && outputs(
                self.duration_fn_spec(),
                events.take(k),
                durs,
            ) ==> weighted_total(vals, durs) is Some
    }

    /// `Σ value × duration` over the events.
    fn aggregate(&self, events: &[E]) -> (r: Decimal)
        ensures
            exists|vals: Seq<Decimal>, durs: Seq<Decimal>|
                #![trigger outputs(self.value_fn_spec(), events@, vals), outputs(self.duration_fn_spec(), events@, durs)]
                outputs(self.value_fn_spec(), events@, vals) && outputs(self.duration_fn_spec(), events@, durs) && weighted_total(
                    vals,
                    durs,
                ) == Some(pair(r)),
    {
        let mut sum = Decimal::zero();
        let ghost mut vals: Seq<Decimal> = Seq::empty();
        let ghost mut durs: Seq<Decimal> = Seq::empty();
        let mut i: usize = 0;
        assert(events@.take(0) =~= Seq::<E>::empty());
        while i < events.len()
            invariant
                i <= events@.len(),
                self.aggregable(events@),
                outputs(self.value_fn, events@.take(i as int), vals),
                outputs(self.duration_fn, events@.take(i as int), durs),
                weighted_total(vals, durs) == Some(pair(sum)),
            decreases events.len() - i,
        {
            let v = (self.value_fn)(&events[i]);
            let d = (self.duration_fn)(&events[i]);
            proof {
                let nv = vals.push(v);
                let nd = durs.push(d);
                assert(events@.take(i as int + 1).drop_last() =~= events@.take(i as int));
                assert(outputs(self.value_fn, events@.take(i as int + 1), nv));
                assert(outputs(self.duration_fn, events@.take(i as int + 1), nd));
                assert(weighted_total(nv, nd) is Some);
                assert(nv.drop_last() =~= vals);
                assert(nd.drop_last() =~= durs);
                vals = nv;
                durs = nd;
            }
            let p = v.checked_mul(&d).unwrap();
            sum = sum.checked_add(&p).unwrap();
            i = i + 1;
        }
        assert(events@.take(events@.len() as int) =~= events@);
        sum
    }
}

} // verus!
