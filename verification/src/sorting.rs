//! Ordering of dates and instants by a numeric key: sorting (as `Vec::sort`
//! then `Vec::reverse` do) and removal of repeats (`Vec::dedup` after a
//! sort).
use vstd::prelude::*;
use vstd::relations::*;

use crate::date::{date_key, Date, DateTimeWrapper};

verus! {

broadcast use vstd::seq_lib::group_to_multiset_ensures;

/// Values ordered by an integer key that tells them apart.
pub trait SortKey: Sized + Copy {
    /// The key of the value.
    spec fn sort_key(&self) -> int;

    /// The key, computed.
    fn key_value(&self) -> (r: i128)
        ensures
            r == self.sort_key(),
    ;

    /// Values with equal keys are equal.
    proof fn lemma_key_injective(a: Self, b: Self)
        ensures
            a.sort_key() == b.sort_key() ==> a == b,
    ;
}

impl SortKey for Date {
    open spec fn sort_key(&self) -> int {
        date_key(self@)
    }

    fn key_value(&self) -> (r: i128) {
        self.key() as i128
    }

    proof fn lemma_key_injective(a: Self, b: Self) {
        Date::lemma_key_injective(a, b);
    }
}

impl SortKey for DateTimeWrapper {
    open spec fn sort_key(&self) -> int {
        self@
    }

    fn key_value(&self) -> (r: i128) {
        self.unix_timestamp_nanos()
    }

    proof fn lemma_key_injective(a: Self, b: Self) {
        DateTimeWrapper::lemma_view_injective(a, b);
    }
}

/// Ascending order by key.
pub open spec fn key_le<T: SortKey>() -> spec_fn(T, T) -> bool {
    |a: T, b: T| a.sort_key() <= b.sort_key()
}

/// Descending order by key.
pub open spec fn key_ge<T: SortKey>() -> spec_fn(T, T) -> bool {
    |a: T, b: T| a.sort_key() >= b.sort_key()
}

/// Keys strictly increasing along the sequence.
pub open spec fn strictly_increasing<T: SortKey>(s: Seq<T>) -> bool {
    forall|i: int, j: int| 0 <= i < j < s.len() ==> #[trigger] s[i].sort_key() < #[trigger] s[j].sort_key()
}

/// Both orders are total orders.
pub proof fn lemma_key_orders_total<T: SortKey>()
    ensures
        total_ordering(key_le::<T>()),
        total_ordering(key_ge::<T>()),
{
    assert forall|x: T, y: T| #[trigger] key_le::<T>()(x, y) && #[trigger] key_le::<T>()(y, x) implies x == y by {
        T::lemma_key_injective(x, y);
    }
    assert forall|x: T, y: T| #[trigger] key_ge::<T>()(x, y) && #[trigger] key_ge::<T>()(y, x) implies x == y by {
        T::lemma_key_injective(x, y);
    }
}

/// Whether `a` belongs before `b` in the chosen order.
fn in_order<T: SortKey>(a: &T, b: &T, descending: bool) -> (r: bool)
    ensures
        r == if descending {
            key_ge::<T>()(*a, *b)
        } else {
            key_le::<T>()(*a, *b)
        },
{
    if descending {
        a.key_value() >= b.key_value()
    } else {
        a.key_value() <= b.key_value()
    }
}

/// The order chosen by `descending`.
pub open spec fn key_order<T: SortKey>(descending: bool) -> spec_fn(T, T) -> bool {
    if descending {
        key_ge::<T>()
    } else {
        key_le::<T>()
    }
}

/// The values sorted by key, largest first when `descending`
/// (`sort` followed by `reverse` when descending).
pub fn sort_by_key<T: SortKey>(v: &Vec<T>, descending: bool) -> (r: Vec<T>)
    ensures
        r@ == v@.sort_by(key_order::<T>(descending)),
        sorted_by(r@, key_order::<T>(descending)),
        r@.to_multiset() == v@.to_multiset(),
{
    let ghost leq = key_order::<T>(descending);
    let mut r: Vec<T> = Vec::new();
    let mut i: usize = 0;
    proof {
        lemma_key_orders_total::<T>();
        assert(v@.take(0) =~= Seq::<T>::empty());
    }
    while i < v.len()
        invariant
            i <= v@.len(),
            leq == key_order::<T>(descending),
            total_ordering(leq),
            sorted_by(r@, leq),
            r@.to_multiset() == v@.take(i as int).to_multiset(),
        decreases v@.len() - i,
    {
        let x = v[i];
        let mut p: usize = 0;
        while p < r.len() && in_order(&r[p], &x, descending)
            invariant
                p <= r@.len(),
                leq == key_order::<T>(descending),
                forall|k: int| 0 <= k < p ==> #[trigger] leq(r@[k], x),
            decreases r@.len() - p,
        {
            p += 1;
        }
        let ghost old_r = r@;
        r.insert(p, x);
        proof {
            assert(r@ == old_r.insert(p as int, x));
            // every element from position p on belongs after x
            assert forall|k: int| p <= k < old_r.len() implies #[trigger] leq(x, old_r[k]) by {
                assert(!leq(old_r[p as int], x));
                assert(leq(x, old_r[p as int]));
                if k > p {
                    assert(leq(old_r[p as int], old_r[k]));
                }
            }
            assert forall|a: int, b: int| 0 <= a < b < r@.len() implies #[trigger] leq(r@[a], r@[b]) by {
                if b < p {
                    assert(r@[a] == old_r[a] && r@[b] == old_r[b]);
                } else if b == p {
                    assert(r@[a] == old_r[a]);
                } else if a < p {
                    assert(r@[a] == old_r[a] && r@[b] == old_r[b - 1]);
                    assert(leq(old_r[a], x));
                    assert(leq(x, old_r[b - 1]));
                } else if a == p {
                    assert(r@[b] == old_r[b - 1]);
                } else {
                    assert(r@[a] == old_r[a - 1] && r@[b] == old_r[b - 1]);
                }
            }
            vstd::seq_lib::to_multiset_insert(old_r, p as int, x);
            assert(v@.take(i + 1) =~= v@.take(i as int).push(x));
            vstd::seq_lib::to_multiset_build(v@.take(i as int), x);
        }
        i += 1;
    }
    proof {
        assert(v@.take(v@.len() as int) =~= v@);
        v@.lemma_sort_by_ensures(leq);
        vstd::seq_lib::lemma_sorted_unique(r@, v@.sort_by(leq), leq);
    }
    r
}

/// The distinct values of `s` in increasing key order: the one sequence
/// with strictly increasing keys that holds just the values of `s`.
pub open spec fn distinct_sorted<T: SortKey>(s: Seq<T>) -> Seq<T> {
    choose|t: Seq<T>| strictly_increasing(t) && t.to_set() == s.to_set()
}

/// Two sequences with strictly increasing keys that hold the same values are
/// equal.
pub proof fn lemma_strictly_increasing_unique<T: SortKey>(a: Seq<T>, b: Seq<T>)
    requires
        strictly_increasing(a),
        strictly_increasing(b),
        a.to_set() == b.to_set(),
    ensures
        a == b,
    decreases a.len(),
{
    if a.len() == 0 {
        if b.len() > 0 {
            assert(b.to_set().contains(b[0]));
        }
        assert(a =~= b);
    } else {
        assert(a.to_set().contains(a[0]));
        assert(b.len() > 0);
        assert(b.to_set().contains(b[0]));
        assert(b.to_set().contains(a[0]));
        assert(a.to_set().contains(b[0]));
        let i = choose|i: int| 0 <= i < b.len() && b[i] == a[0];
        let j = choose|j: int| 0 <= j < a.len() && a[j] == b[0];
        if i > 0 {
            assert(b[0].sort_key() < b[i].sort_key());
            if j > 0 {
                assert(a[0].sort_key() < a[j].sort_key());
            }
        }
        if j > 0 {
            assert(a[0].sort_key() < a[j].sort_key());
        }
        assert(a[0].sort_key() == b[0].sort_key());
        T::lemma_key_injective(a[0], b[0]);
        let ra = a.drop_first();
        let rb = b.drop_first();
        assert forall|x: T| ra.to_set().contains(x) <==> rb.to_set().contains(x) by {
            if ra.to_set().contains(x) {
                let k = choose|k: int| 0 <= k < ra.len() && ra[k] == x;
                assert(a[k + 1] == x);
                assert(a[0].sort_key() < a[k + 1].sort_key());
                assert(a.to_set().contains(x));
                let m = choose|m: int| 0 <= m < b.len() && b[m] == x;
                assert(m != 0);
                assert(rb[m - 1] == x);
            }
            if rb.to_set().contains(x) {
                let k = choose|k: int| 0 <= k < rb.len() && rb[k] == x;
                assert(b[k + 1] == x);
                assert(b[0].sort_key() < b[k + 1].sort_key());
                assert(b.to_set().contains(x));
                let m = choose|m: int| 0 <= m < a.len() && a[m] == x;
                assert(m != 0);
                assert(ra[m - 1] == x);
            }
        }
        assert(ra.to_set() =~= rb.to_set());
        lemma_strictly_increasing_unique(ra, rb);
        assert(a =~= seq![a[0]] + ra);
        assert(b =~= seq![b[0]] + rb);
    }
}

/// The distinct values, in increasing key order (`sort` then `dedup`).
pub fn sort_dedup<T: SortKey>(v: &Vec<T>) -> (r: Vec<T>)
    ensures
        strictly_increasing(r@),
        r@.to_set() == v@.to_set(),
        r@ == distinct_sorted(v@),
{
    let s = sort_by_key(v, false);
    let ghost leq = key_le::<T>();
    let mut r: Vec<T> = Vec::new();
    let mut i: usize = 0;
    proof {
        assert(s@.to_multiset() == v@.to_multiset());
    }
    while i < s.len()
        invariant
            i <= s@.len(),
            leq == key_le::<T>(),
            sorted_by(s@, leq),
            strictly_increasing(r@),
            r@.to_set() == s@.take(i as int).to_set(),
            r@.len() > 0 ==> i > 0 && r@.last() == s@[i - 1],
        decreases s@.len() - i,
    {
        let x = s[i];
        let ghost before = r@;
        let fresh = r.len() == 0 || r[r.len() - 1].key_value() != x.key_value();
        if fresh {
            r.push(x);
            proof {
                if before.len() > 0 {
                    assert(leq(s@[i - 1], s@[i as int]));
                    assert forall|a: int, b: int| 0 <= a < b < r@.len() implies #[trigger] r@[a].sort_key() < #[trigger] r@[b].sort_key() by {
                        if b < before.len() {
                            assert(r@[a] == before[a] && r@[b] == before[b]);
                        } else if a < before.len() - 1 {
                            assert(before[a].sort_key() < before.last().sort_key());
                        }
                    }
                }
            }
        } else {
            proof {
                T::lemma_key_injective(before.last(), x);
            }
        }
        proof {
            assert(s@.take(i + 1) =~= s@.take(i as int).push(x));
            assert forall|y: T| r@.contains(y) <==> s@.take(i + 1).contains(y) by {
                if r@.contains(y) {
                    let k = choose|k: int| 0 <= k < r@.len() && #[trigger] r@[k] == y;
                    if fresh && k == r@.len() - 1 {
                        assert(s@.take(i + 1)[i as int] == y);
                    } else {
                        assert(before[k] == y);
                        assert(before.to_set().contains(y));
                        let m = choose|m: int| 0 <= m < i && #[trigger] s@.take(i as int)[m] == y;
                        assert(s@.take(i + 1)[m] == y);
                    }
                }
                if s@.take(i + 1).contains(y) {
                    let m = choose|m: int| 0 <= m < i + 1 && #[trigger] s@.take(i + 1)[m] == y;
                    if m == i {
                        if fresh {
                            assert(r@[r@.len() - 1] == y);
                        } else {
                            assert(r@[r@.len() - 1] == y);
                        }
                    } else {
                        assert(s@.take(i as int)[m] == y);
                        assert(s@.take(i as int).to_set().contains(y));
                        assert(before.to_set().contains(y));
                        let k = choose|k: int| 0 <= k < before.len() && #[trigger] before[k] == y;
                        assert(r@[k] == y);
                    }
                }
            }
            assert(r@.to_set() =~= s@.take(i + 1).to_set());
        }
        i += 1;
    }
    proof {
        assert(s@.take(s@.len() as int) =~= s@);
        assert forall|y: T| s@.to_set().contains(y) <==> v@.to_set().contains(y) by {
            assert(s@.to_multiset().count(y) == v@.to_multiset().count(y));
        }
        assert(s@.to_set() =~= v@.to_set());
        let t = distinct_sorted(v@);
        assert(strictly_increasing(r@) && r@.to_set() == v@.to_set());
        lemma_strictly_increasing_unique(t, r@);
    }
    r
}


/// Removing repeats is idempotent: a sequence with strictly increasing keys
/// (what `sort_dedup` returns) is its own distinct sort, so `sort_dedup`
/// hands such a sequence back unchanged.
pub proof fn law_sort_dedup_idempotent<T: SortKey>(r: Seq<T>)
    requires
        strictly_increasing(r),
    ensures
        distinct_sorted(r) == r,
{
    let t = distinct_sorted(r);
    assert(strictly_increasing(t) && t.to_set() == r.to_set());
    lemma_strictly_increasing_unique(t, r);
}

} // verus!
