//! [`RateLookup`] — a rate table keyed by a parameter such as installed
//! capacity: the rate of the smallest upper bound at or above the parameter.
use vstd::prelude::*;

use crate::allocation::dec_le;
use crate::amount::Amount;
use crate::arith::lemma_decimal_order_trans;
use crate::decimal::{Decimal, MAX_MANTISSA};
use crate::error::BillingError;
use crate::text::{join3, owned};

verus! {

/// Entries strictly ascending by upper bound.
pub open spec fn strictly_ascending(e: Seq<(Decimal, Amount<5>)>) -> bool {
    forall|a: int, b: int| 0 <= a < b < e.len() ==> (#[trigger] e[a]).0.less_than((#[trigger] e[b]).0)
}

/// Entries ascending by upper bound, equal bounds allowed.
pub open spec fn ascending(e: Seq<(Decimal, Amount<5>)>) -> bool {
    forall|a: int, b: int| 0 <= a < b < e.len() ==> dec_le((#[trigger] e[a]).0, (#[trigger] e[b]).0)
}

/// Two entries share an upper bound (as numbers).
pub open spec fn has_duplicate_bound(e: Seq<(Decimal, Amount<5>)>) -> bool {
    exists|a: int, b: int| 0 <= a < b < e.len() && (#[trigger] e[a]).0.same_value((#[trigger] e[b]).0)
}

/// `x` and `y` hold the same entries, each as often.
pub open spec fn same_entries(x: Seq<(Decimal, Amount<5>)>, y: Seq<(Decimal, Amount<5>)>) -> bool {
    x.to_multiset() == y.to_multiset()
}

/// The rate of the first entry whose bound is at or above `p`, from entry `i`.
pub open spec fn rate_from(e: Seq<(Decimal, Amount<5>)>, i: int, p: Decimal) -> Option<Amount<5>>
    decreases e.len() - i,
{
    if i < 0 || i >= e.len() {
        None
    } else if dec_le(p, e[i].0) {
        Some(e[i].1)
    } else {
        rate_from(e, i + 1, p)
    }
}

/// A rate table: entries strictly ascending by upper bound.
#[derive(Debug, Clone)]
pub struct RateLookup {
    entries: Vec<(Decimal, Amount<5>)>,
}

impl View for RateLookup {
    type V = Seq<(Decimal, Amount<5>)>;

    closed spec fn view(&self) -> Seq<(Decimal, Amount<5>)> {
        self.entries@
    }
}

/// Builder for [`RateLookup`].
#[derive(Debug)]
pub struct RateLookupBuilder {
    entries: Vec<(Decimal, Amount<5>)>,
    has_fallback: bool,
    duplicate_fallback: bool,
}

impl View for RateLookupBuilder {
    type V = Seq<(Decimal, Amount<5>)>;

    closed spec fn view(&self) -> Seq<(Decimal, Amount<5>)> {
        self.entries@
    }
}

impl RateLookup {
    /// An empty builder.
    pub fn builder() -> (b: RateLookupBuilder)
        ensures
            b@.len() == 0 && !b.has_fallback_spec() && !b.duplicate_fallback_spec(),
    {
        RateLookupBuilder { entries: Vec::new(), has_fallback: false, duplicate_fallback: false }
    }

    /// The rate for `parameter`: that of the smallest upper bound at or above
    /// it; `Err(InvalidInput)` when every bound is below it.
    pub fn rate_for(&self, parameter: Decimal) -> (r: Result<Amount<5>, BillingError>)
        ensures
            match rate_from(self@, 0, parameter) {
                Some(a) => r == Ok::<Amount<5>, BillingError>(a),
                None => (r matches Err(e) && e is InvalidInput),
            },
    {
        let n = self.entries.len();
        let mut i: usize = 0;
        while i < n
            invariant
                i <= n,
                n == self.entries.len(),
                rate_from(self.entries@, 0, parameter) == rate_from(self.entries@, i as int, parameter),
            decreases n - i,
        {
            let (bound, rate) = self.entries[i];
            if !bound.lt(&parameter) {
                return Ok(rate);
            }
            i = i + 1;
        }
        Err(BillingError::invalid_input("no matching rate for parameter: add a .fallback() entry"))
    }
}

impl RateLookupBuilder {
    /// Whether a fallback was added.
    pub closed spec fn has_fallback_spec(&self) -> bool {
        self.has_fallback
    }

    /// Whether a fallback was added more than once.
    pub closed spec fn duplicate_fallback_spec(&self) -> bool {
        self.duplicate_fallback
    }

    /// Add a rate for parameters up to and including `upper_bound`.
    pub fn at_most(self, upper_bound: Decimal, rate: Amount<5>) -> (b: RateLookupBuilder)
        ensures
            b@ == self@.push((upper_bound, rate)),
            b.has_fallback_spec() == self.has_fallback_spec(),
            b.duplicate_fallback_spec() == self.duplicate_fallback_spec(),
    {
        let mut s = self;
        s.entries.push((upper_bound, rate));
        s
    }

    /// Add the rate for every parameter above the other bounds: an entry at
    /// the largest decimal. Adding it twice makes [`RateLookupBuilder::build`]
    /// fail.
    pub fn fallback(self, rate: Amount<5>) -> (b: RateLookupBuilder)
        ensures
            b@.len() == self@.len() + 1 && b@.drop_last() == self@,
            b@.last().1 == rate && b@.last().0.m() == MAX_MANTISSA && b@.last().0.s() == 0,
            b.has_fallback_spec(),
            b.duplicate_fallback_spec() == (self.duplicate_fallback_spec() || self.has_fallback_spec()),
    {
        let mut s = self;
        if s.has_fallback {
            s.duplicate_fallback = true;
        }
        s.has_fallback = true;
        s.entries.push((Decimal::max_value(), rate));
        proof {
            assert(s.entries@.drop_last() =~= self.entries@);
        }
        s
    }

    /// Validate and build: `Err(InvalidSchedule)` exactly when there is no
    /// entry, the fallback was added twice, a bound is not positive, or two
    /// bounds are equal. The table holds the same entries, strictly ascending
    /// by bound.
    pub fn build(self) -> (r: Result<RateLookup, BillingError>)
        ensures
            r is Ok <==> (self@.len() > 0 && !self.duplicate_fallback_spec() && (forall|i: int|
                0 <= i < self@.len() ==> (#[trigger] self@[i]).0.m() > 0) && !has_duplicate_bound(self@)),
            r matches Err(e) ==> e is InvalidSchedule,
            r matches Ok(t) ==> strictly_ascending(t@) && same_entries(self@, t@),
    {
        let n = self.entries.len();
        if n == 0 {
            return Err(BillingError::InvalidSchedule { reason: owned("RateLookup must have at least one entry") });
        }
        if self.duplicate_fallback {
            return Err(BillingError::InvalidSchedule { reason: owned("RateLookup: fallback() may only be called once") });
        }
        let zero = Decimal::zero();
        let mut i: usize = 0;
        while i < n
            invariant
                i <= n,
                n == self.entries.len(),
                zero.m() == 0 && zero.s() == 0,
                forall|k: int| 0 <= k < i ==> (#[trigger] self.entries@[k]).0.m() > 0,
            decreases n - i,
        {
            if !zero.lt(&self.entries[i].0) {
                return Err(BillingError::InvalidSchedule {
                    reason: join3("RateLookup upper_bound must be positive, got ", self.entries[i].0.to_text().as_str(), ""),
                });
            }
            i = i + 1;
        }
        let sorted = sort_by_bound(&self.entries);
        let mut i: usize = 1;
        while i < n
            invariant
                1 <= i <= n,
                n == sorted.len(),
                ascending(sorted@),
                same_entries(self.entries@, sorted@),
                forall|k: int| 0 <= k < i - 1 ==> !(#[trigger] sorted@[k]).0.same_value(sorted@[k + 1].0),
            decreases n - i,
        {
            if sorted[i - 1].0.value_eq(&sorted[i].0) {
                proof {
                    lemma_shared_bound(self.entries@, sorted@, i as int - 1);
                }
                return Err(BillingError::InvalidSchedule {
                    reason: join3(
                        "RateLookup has duplicate upper_bound ",
                        sorted[i - 1].0.to_text().as_str(),
                        " \u{2014} the second entry is unreachable",
                    ),
                });
            }
            i = i + 1;
        }
        proof {
            lemma_strict_from_adjacent(sorted@);
            lemma_no_duplicate(self.entries@, sorted@);
        }
        Ok(RateLookup { entries: sorted })
    }
}

/// The entries of `v` ascending by bound, equal bounds in the order `v`
/// gives them.
fn sort_by_bound(v: &Vec<(Decimal, Amount<5>)>) -> (out: Vec<(Decimal, Amount<5>)>)
    ensures
        ascending(out@),
        same_entries(v@, out@),
        out.len() == v.len(),
{
    broadcast use vstd::seq_lib::group_to_multiset_ensures;

    let mut out: Vec<(Decimal, Amount<5>)> = Vec::new();
    let mut i: usize = 0;
    assert(v@.take(0) =~= Seq::<(Decimal, Amount<5>)>::empty());
    while i < v.len()
        invariant
            i <= v.len(),
            out.len() == i,
            ascending(out@),
            out@.to_multiset() == v@.take(i as int).to_multiset(),
        decreases v.len() - i,
    {
        let e = v[i];
        let mut j: usize = 0;
        while j < out.len() && !e.0.lt(&out[j].0)
            invariant
                j <= out.len(),
                forall|k: int| 0 <= k < j ==> dec_le((#[trigger] out@[k]).0, e.0),
            decreases out.len() - j,
        {
            j = j + 1;
        }
        let ghost before = out@;
        out.insert(j, e);
        proof {
            assert forall|a: int, b: int| 0 <= a < b < out@.len() implies dec_le(
                (#[trigger] out@[a]).0,
                (#[trigger] out@[b]).0,
            ) by {
                if b < j {
                    assert(out@[a] == before[a] && out@[b] == before[b]);
                } else if a > j {
                    assert(out@[a] == before[a - 1] && out@[b] == before[b - 1]);
                } else if a == j {
                    assert(out@[b] == before[b - 1]);
                    if b - 1 > j {
                        lemma_decimal_order_trans(e.0, before[j as int].0, before[b - 1].0);
                    }
                } else if b == j {
                    assert(out@[a] == before[a]);
                } else {
                    assert(out@[a] == before[a] && out@[b] == before[b - 1]);
                }
            }
            assert(v@.take(i as int + 1) =~= v@.take(i as int).push(e));
            assert(out@ == before.insert(j as int, e));
            vstd::seq_lib::to_multiset_insert(before, j as int, e);
            vstd::seq_lib::to_multiset_build(v@.take(i as int), e);
        }
        i = i + 1;
    }
    proof {
        assert(v@.take(v.len() as int) =~= v@);
    }
    out
}

/// Ascending entries with no two neighbours equal are strictly ascending.
proof fn lemma_strict_from_adjacent(e: Seq<(Decimal, Amount<5>)>)
    requires
        ascending(e),
        forall|k: int| 0 <= k < e.len() - 1 ==> !(#[trigger] e[k]).0.same_value(e[k + 1].0),
    ensures
        strictly_ascending(e),
{
    assert forall|a: int, b: int| 0 <= a < b < e.len() implies (#[trigger] e[a]).0.less_than((#[trigger] e[b]).0) by {
        assert(dec_le(e[a].0, e[a + 1].0));
        assert(!e[a].0.same_value(e[a + 1].0));
        crate::arith::lemma_decimal_total(e[a].0, e[a + 1].0);
        if a + 1 < b {
            lemma_decimal_order_trans(e[a].0, e[a + 1].0, e[b].0);
        }
    }
}

/// An entry found at two indices is counted at least twice.
proof fn lemma_two_indices_count(v: Seq<(Decimal, Amount<5>)>, a: int, b: int)
    requires
        0 <= a < v.len(),
        0 <= b < v.len(),
        a != b,
        v[a] == v[b],
    ensures
        v.to_multiset().count(v[a]) >= 2,
{
    broadcast use vstd::seq_lib::group_to_multiset_ensures;
    broadcast use vstd::multiset::group_multiset_axioms;

    let r = v.remove(a);
    let w = if b < a { b } else { b - 1 };
    assert(r[w] == v[b]);
    assert(r.contains(v[a]));
    assert(r.to_multiset().count(v[a]) > 0);
    assert(r.to_multiset() == v.to_multiset().remove(v[a]));
}

/// An entry counted at least twice is found at two indices.
proof fn lemma_count_two_indices(v: Seq<(Decimal, Amount<5>)>, x: (Decimal, Amount<5>))
    requires
        v.to_multiset().count(x) >= 2,
    ensures
        exists|a: int, b: int| 0 <= a < b < v.len() && v[a] == x && v[b] == x,
{
    broadcast use vstd::seq_lib::group_to_multiset_ensures;
    broadcast use vstd::multiset::group_multiset_axioms;

    assert(v.to_multiset().count(x) > 0);
    assert(v.contains(x));
    let a = choose|a: int| 0 <= a < v.len() && v[a] == x;
    let r = v.remove(a);
    assert(r.to_multiset() == v.to_multiset().remove(v[a]));
    assert(r.to_multiset().count(x) >= 1);
    assert(r.contains(x));
    let w = choose|w: int| 0 <= w < r.len() && r[w] == x;
    if w < a {
        assert(v[w] == x);
    } else {
        assert(v[w + 1] == x);
    }
}

/// Neighbours of the sorted entries sharing a bound are two entries of the
/// input sharing it.
proof fn lemma_shared_bound(v: Seq<(Decimal, Amount<5>)>, s: Seq<(Decimal, Amount<5>)>, k: int)
    requires
        same_entries(v, s),
        0 <= k < s.len() - 1,
        s[k].0.same_value(s[k + 1].0),
    ensures
        has_duplicate_bound(v),
{
    broadcast use vstd::seq_lib::group_to_multiset_ensures;

    if s[k] == s[k + 1] {
        lemma_two_indices_count(s, k, k + 1);
        lemma_count_two_indices(v, s[k]);
        let (a, b) = choose|a: int, b: int| 0 <= a < b < v.len() && v[a] == s[k] && v[b] == s[k];
        assert(v[a].0.same_value(v[b].0));
    } else {
        assert(s.contains(s[k]));
        assert(s.contains(s[k + 1]));
        assert(s.to_multiset().count(s[k]) > 0);
        assert(s.to_multiset().count(s[k + 1]) > 0);
        assert(v.to_multiset().count(s[k]) > 0);
        assert(v.to_multiset().count(s[k + 1]) > 0);
        assert(v.contains(s[k]));
        assert(v.contains(s[k + 1]));
        let a = choose|a: int| 0 <= a < v.len() && v[a] == s[k];
        let b = choose|b: int| 0 <= b < v.len() && v[b] == s[k + 1];
        if a < b {
            assert(v[a].0.same_value(v[b].0));
        } else {
            assert(v[b].0.same_value(v[a].0));
        }
    }
}

/// Strictly ascending entries holding the same entries as `v` leave no two
/// entries of `v` sharing a bound.
proof fn lemma_no_duplicate(v: Seq<(Decimal, Amount<5>)>, s: Seq<(Decimal, Amount<5>)>)
    requires
        same_entries(v, s),
        strictly_ascending(s),
    ensures
        !has_duplicate_bound(v),
{
    broadcast use vstd::seq_lib::group_to_multiset_ensures;

    if has_duplicate_bound(v) {
        let (a, b) = choose|a: int, b: int| 0 <= a < b < v.len() && (#[trigger] v[a]).0.same_value((#[trigger] v[b]).0);
        if v[a] == v[b] {
            lemma_two_indices_count(v, a, b);
            lemma_count_two_indices(s, v[a]);
            let (p, q) = choose|p: int, q: int| 0 <= p < q < s.len() && s[p] == v[a] && s[q] == v[a];
            assert(s[p].0.less_than(s[q].0));
        } else {
            assert(v.contains(v[a]));
            assert(v.contains(v[b]));
            assert(v.to_multiset().count(v[a]) > 0);
            assert(v.to_multiset().count(v[b]) > 0);
            assert(s.to_multiset().count(v[a]) > 0);
            assert(s.to_multiset().count(v[b]) > 0);
            assert(s.contains(v[a]));
            assert(s.contains(v[b]));
            let p = choose|p: int| 0 <= p < s.len() && s[p] == v[a];
            let q = choose|q: int| 0 <= q < s.len() && s[q] == v[b];
            if p < q {
                assert(s[p].0.less_than(s[q].0));
            } else {
                assert(s[q].0.less_than(s[p].0));
            }
        }
    }
}


/// From entry `i` on, the rate found is that of the first entry whose bound
/// is at or above `p`.
proof fn lemma_rate_from(e: Seq<(Decimal, Amount<5>)>, i: int, p: Decimal)
    requires
        0 <= i <= e.len(),
    ensures
        rate_from(e, i, p) is None <==> forall|j: int| i <= j < e.len() ==> !dec_le(p, #[trigger] e[j].0),
        rate_from(e, i, p) matches Some(a) ==> exists|k: int| i <= k < e.len() && dec_le(p, #[trigger] e[k].0) && e[k].1 == a
            && forall|j: int| i <= j < k ==> !dec_le(p, #[trigger] e[j].0),
    decreases e.len() - i,
{
    if i < e.len() {
        lemma_rate_from(e, i + 1, p);
        if !dec_le(p, e[i].0) {
            if rate_from(e, i + 1, p) is Some {
                let k = choose|k: int| i + 1 <= k < e.len() && dec_le(p, #[trigger] e[k].0) && e[k].1 == rate_from(e, i + 1, p)->0
                    && forall|j: int| i + 1 <= j < k ==> !dec_le(p, #[trigger] e[j].0);
                assert(i <= k < e.len() && dec_le(p, e[k].0) && e[k].1 == rate_from(e, i, p)->0);
            }
        } else {
            assert(dec_le(p, e[i].0) && e[i].1 == rate_from(e, i, p)->0);
        }
    }
}

/// In a table ascending by bound, the rate for `p` is that of the least
/// bound at or above `p`: there is none exactly when every bound lies below
/// `p`, and otherwise the entry found is at or above `p` and no other entry
/// at or above `p` has a smaller bound.
pub proof fn lemma_rate_is_least_bound(e: Seq<(Decimal, Amount<5>)>, p: Decimal)
    requires
        strictly_ascending(e),
    ensures
        rate_from(e, 0, p) is None <==> forall|j: int| 0 <= j < e.len() ==> !dec_le(p, #[trigger] e[j].0),
        rate_from(e, 0, p) matches Some(a) ==> exists|k: int| 0 <= k < e.len() && dec_le(p, #[trigger] e[k].0) && e[k].1 == a
            && forall|j: int| 0 <= j < e.len() && dec_le(p, #[trigger] e[j].0) ==> dec_le(e[k].0, e[j].0),
{
    lemma_rate_from(e, 0, p);
    if rate_from(e, 0, p) is Some {
        let k = choose|k: int| 0 <= k < e.len() && dec_le(p, #[trigger] e[k].0) && e[k].1 == rate_from(e, 0, p)->0
            && forall|j: int| 0 <= j < k ==> !dec_le(p, #[trigger] e[j].0);
        assert forall|j: int| 0 <= j < e.len() && dec_le(p, #[trigger] e[j].0) implies dec_le(e[k].0, e[j].0) by {
            if j > k {
                assert(e[k].0.less_than(e[j].0));
            }
        }
    }
}

} // verus!
