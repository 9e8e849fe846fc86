//! Aggregates over the live values of a queue.

use crate::model::{all_live, lemma_purged_twice, purged, values};
use crate::queue::{QueueElement, SumQueue};
use core::cmp::Ordering;
use core::ops::Add;
use vstd::laws_cmp::{
    obeys_cmp, obeys_cmp_ord, obeys_cmp_partial_ord, obeys_partial_cmp_spec_properties,
};
use vstd::prelude::*;
use vstd::std_specs::cmp::{OrdSpec, PartialOrdIs, PartialOrdSpec};
use vstd::std_specs::ops::AddSpec;

verus! {

/// A snapshot of the queue: the smallest and the largest live value, the sum
/// of the live values, and how many there are. The three values are `None`
/// exactly when the queue is empty.
pub struct QueueStats<T> {
    /// The smallest live value.
    pub min: Option<T>,
    /// The largest live value.
    pub max: Option<T>,
    /// The sum of the live values.
    pub sum: Option<T>,
    /// The number of live values.
    pub len: usize,
}

/// `a` comes strictly before `b` in the order of `T`.
pub open spec fn below<T: Ord>(a: T, b: T) -> bool {
    a.cmp_spec(&b) == Ordering::Less
}

/// The order of `T` keeps the laws of a total order, and `<` on `T` goes by
/// it. vstd proves this of the integer types.
pub open spec fn lawful_order<T: Ord>() -> bool {
    obeys_cmp::<T>()
}

/// Under a lawful order, `a < b` in executable code says that `a` is below
/// `b`.
pub proof fn lemma_less_than_is_below<T: Ord>(a: T, b: T)
    requires
        lawful_order::<T>(),
    ensures
        T::obeys_partial_cmp_spec(),
        a.is_lt(&b) <==> below(a, b),
{
    reveal(obeys_cmp_ord);
    reveal(obeys_cmp_partial_ord);
    assert(a.partial_cmp_spec(&b) == Some(a.cmp_spec(&b)));
}

/// The smallest of `vals`; among several that are equally small, the first.
pub open spec fn min_of<T: Ord>(vals: Seq<T>) -> T
    recommends
        vals.len() > 0,
    decreases vals.len(),
{
    if vals.len() <= 1 {
        vals[0]
    } else {
        let rest = min_of(vals.drop_last());
        if below(vals.last(), rest) {
            vals.last()
        } else {
            rest
        }
    }
}

/// The largest of `vals`; among several that are equally large, the first.
pub open spec fn max_of<T: Ord>(vals: Seq<T>) -> T
    recommends
        vals.len() > 0,
    decreases vals.len(),
{
    if vals.len() <= 1 {
        vals[0]
    } else {
        let rest = max_of(vals.drop_last());
        if below(rest, vals.last()) {
            vals.last()
        } else {
            rest
        }
    }
}

/// The sum of `vals`, added up from the first to the last.
pub open spec fn sum_of<T: Add<Output = T>>(vals: Seq<T>) -> T
    recommends
        vals.len() > 0,
    decreases vals.len(),
{
    if vals.len() <= 1 {
        vals[0]
    } else {
        sum_of(vals.drop_last()).add_spec(vals.last())
    }
}

/// Every addition that `sum_of(vals)` makes is one that `T` allows: for the
/// integers, none runs out of the type's range.
pub open spec fn summable<T: Add<Output = T>>(vals: Seq<T>) -> bool
    decreases vals.len(),
{
    vals.len() <= 1 || (summable(vals.drop_last()) && sum_of(vals.drop_last()).add_req(
        vals.last(),
    ))
}

/// The snapshot of a queue that holds `vals`.
pub open spec fn stats_of<T: Ord + Add<Output = T>>(vals: Seq<T>) -> QueueStats<T> {
    if vals.len() == 0 {
        QueueStats { min: None, max: None, sum: None, len: 0 }
    } else {
        QueueStats {
            min: Some(min_of(vals)),
            max: Some(max_of(vals)),
            sum: Some(sum_of(vals)),
            len: vals.len() as usize,
        }
    }
}

impl<T: Copy + Ord + Add<Output = T>> SumQueue<T> {
    /// The minimum, the maximum and the sum of the queue as it stands, with
    /// no purge before the scan. `len` is handed on as the count: the caller
    /// has it from the operation that purged.
    pub fn _stats(&self, len: usize) -> (st: QueueStats<T>)
        requires
            lawful_order::<T>(),
            T::obeys_add_spec(),
            summable(values(self@)),
        ensures
            st.min == stats_of(values(self@)).min,
            st.max == stats_of(values(self@)).max,
            st.sum == stats_of(values(self@)).sum,
            st.len == len,
    {
        let ghost vals = values(self@);
        let entries = self.entries();
        let n: usize = entries.len();
        let mut min: Option<T> = None;
        let mut max: Option<T> = None;
        let mut sum: Option<T> = None;
        let mut i: usize = 0;
        while i < n
            invariant
                n == self@.len(),
                vals == values(self@),
                entries@ == self@,
                i <= n,
                lawful_order::<T>(),
                T::obeys_add_spec(),
                summable(vals),
                i == 0 ==> min.is_none() && max.is_none() && sum.is_none(),
                i > 0 ==> min == Some(min_of(vals.take(i as int))),
                i > 0 ==> max == Some(max_of(vals.take(i as int))),
                i > 0 ==> sum == Some(sum_of(vals.take(i as int))),
            decreases n - i,
        {
            let v: T = entries[i].value;
            proof {
                let upto = vals.take(i + 1);
                assert(upto.drop_last() =~= vals.take(i as int));
                assert(upto.last() == v);
                lemma_summable_prefix(vals, i + 1);
                if i > 0 {
                    let m = min_of(vals.take(i as int));
                    let x = max_of(vals.take(i as int));
                    lemma_less_than_is_below(v, m);
                    lemma_less_than_is_below(x, v);
                }
            }
            min = match min {
                None => Some(v),
                Some(m) => if v < m {
                    Some(v)
                } else {
                    Some(m)
                },
            };
            max = match max {
                None => Some(v),
                Some(m) => if m < v {
                    Some(v)
                } else {
                    Some(m)
                },
            };
            sum = match sum {
                None => Some(v),
                Some(partial) => Some(partial + v),
            };
            i = i + 1;
        }
        assert(vals.take(n as int) =~= vals);
        QueueStats { min, max, sum, len }
    }

    /// Purges at `now`, then returns the snapshot of what is left.
    pub fn stats_at(&mut self, now: u128) -> (st: QueueStats<T>)
        requires
            old(self).wf(),
            now >= old(self).clock(),
            lawful_order::<T>(),
            T::obeys_add_spec(),
            summable(values(purged(old(self)@, now as int, old(self).max_age_nanos()))),
        ensures
            final(self).wf(),
            final(self)@ == purged(old(self)@, now as int, old(self).max_age_nanos()),
            all_live(final(self)@, now as int, old(self).max_age_nanos()),
            st == stats_of(values(final(self)@)),
            st.len == final(self)@.len(),
            final(self).clock() == now,
            final(self).max_age_spec() == old(self).max_age_spec(),
    {
        let len: usize = self.len_at(now);
        self._stats(len)
    }

    /// Purges at `now`, pushes `item` with the timestamp `now`, and returns
    /// the snapshot of the queue with `item` in it: one purge and one scan.
    pub fn push_and_stats_at(&mut self, now: u128, item: T) -> (st: QueueStats<T>)
        requires
            old(self).wf(),
            now >= old(self).clock(),
            lawful_order::<T>(),
            T::obeys_add_spec(),
            summable(
                values(purged(old(self)@, now as int, old(self).max_age_nanos())).push(item),
            ),
        ensures
            final(self).wf(),
            final(self)@ == purged(old(self)@, now as int, old(self).max_age_nanos()).push(
                (QueueElement { time: now, value: item }),
            ),
            all_live(final(self)@, now as int, old(self).max_age_nanos()),
            st == stats_of(values(final(self)@)),
            st.len == final(self)@.len(),
            final(self).clock() == now,
            final(self).max_age_spec() == old(self).max_age_spec(),
    {
        let len: usize = self.push_at(now, item);
        assert(values(self@) =~= values(
            purged(old(self)@, now as int, old(self).max_age_nanos()),
        ).push(item));
        self._stats(len)
    }

    /// The snapshot at the time the clock shows; see `stats_at`. Whatever
    /// that time is, the values that are then live must be summable.
    pub fn stats(&mut self) -> (st: QueueStats<T>)
        requires
            old(self).wf(),
            lawful_order::<T>(),
            T::obeys_add_spec(),
            forall|now: int|
                now >= old(self).clock() ==> summable(
                    values(#[trigger] purged(old(self)@, now, old(self).max_age_nanos())),
                ),
        ensures
            final(self).wf(),
            final(self).clock() >= old(self).clock(),
            final(self)@ == purged(old(self)@, final(self).clock(), old(self).max_age_nanos()),
            all_live(final(self)@, final(self).clock(), old(self).max_age_nanos()),
            st == stats_of(values(final(self)@)),
            st.len == final(self)@.len(),
            final(self).max_age_spec() == old(self).max_age_spec(),
    {
        let now: u128 = self.now();
        self.stats_at(now)
    }

    /// Pushes `item` at the time the clock shows and returns the snapshot
    /// with `item` in it; see `push_and_stats_at`. Whatever that time is,
    /// the values that are then live must be summable together with `item`.
    pub fn push_and_stats(&mut self, item: T) -> (st: QueueStats<T>)
        requires
            old(self).wf(),
            lawful_order::<T>(),
            T::obeys_add_spec(),
            forall|now: int|
                now >= old(self).clock() ==> summable(
                    values(#[trigger] purged(old(self)@, now, old(self).max_age_nanos())).push(
                        item,
                    ),
                ),
        ensures
            final(self).wf(),
            final(self).clock() >= old(self).clock(),
            final(self)@ == purged(
                old(self)@,
                final(self).clock(),
                old(self).max_age_nanos(),
            ).push((QueueElement { time: final(self).clock() as u128, value: item })),
            all_live(final(self)@, final(self).clock(), old(self).max_age_nanos()),
            st == stats_of(values(final(self)@)),
            st.len == final(self)@.len(),
            final(self).max_age_spec() == old(self).max_age_spec(),
    {
        let now: u128 = self.now();
        self.push_and_stats_at(now, item)
    }
}

/// A push followed by a snapshot at the same time sees the queue as the
/// push left it: the second purge finds nothing to drop. So a combined push
/// and snapshot gives what the two give one after the other.
pub proof fn lemma_push_then_stats<T: Ord + Add<Output = T>>(
    s: Seq<QueueElement<T>>,
    pushed: QueueElement<T>,
    max_age: int,
)
    requires
        max_age >= 0,
    ensures
        ({
            let now = pushed.time as int;
            let after_push = purged(s, now, max_age).push(pushed);
            &&& purged(after_push, now, max_age) == after_push
            &&& stats_of(values(purged(after_push, now, max_age))) == stats_of(
                values(after_push),
            )
        }),
{
    let now = pushed.time as int;
    lemma_purged_twice(s, now, max_age);
    let live = purged(s, now, max_age);
    let after_push = live.push(pushed);
    if live.len() > 0 {
        assert(after_push[0] == live[0]);
    }
}

/// The sum of `vals` as whole numbers, with no limit of size.
pub open spec fn total(vals: Seq<int>) -> int
    decreases vals.len(),
{
    if vals.len() == 0 {
        0
    } else {
        total(vals.drop_last()) + vals.last()
    }
}

/// For `i64`, a sequence that can be summed has the arithmetic sum of its
/// values as its `sum_of`.
pub proof fn lemma_sum_of_i64(vals: Seq<i64>)
    requires
        vals.len() > 0,
        summable(vals),
    ensures
        sum_of(vals) == total(vals.map_values(|v: i64| v as int)),
    decreases vals.len(),
{
    let wide = vals.map_values(|v: i64| v as int);
    assert(wide.drop_last() =~= vals.drop_last().map_values(|v: i64| v as int));
    if vals.len() <= 1 {
        assert(total(wide.drop_last()) == 0);
    } else {
        lemma_sum_of_i64(vals.drop_last());
    }
}

/// For `u64`, a sequence that can be summed has the arithmetic sum of its
/// values as its `sum_of`.
pub proof fn lemma_sum_of_u64(vals: Seq<u64>)
    requires
        vals.len() > 0,
        summable(vals),
    ensures
        sum_of(vals) == total(vals.map_values(|v: u64| v as int)),
    decreases vals.len(),
{
    let wide = vals.map_values(|v: u64| v as int);
    assert(wide.drop_last() =~= vals.drop_last().map_values(|v: u64| v as int));
    if vals.len() <= 1 {
        assert(total(wide.drop_last()) == 0);
    } else {
        lemma_sum_of_u64(vals.drop_last());
    }
}

/// Where a sequence can be summed, so can each of its beginnings.
pub proof fn lemma_summable_prefix<T: Add<Output = T>>(vals: Seq<T>, n: int)
    requires
        summable(vals),
        0 <= n <= vals.len(),
    ensures
        summable(vals.take(n)),
        n >= 2 ==> sum_of(vals.take(n - 1)).add_req(vals[n - 1]),
    decreases vals.len(),
{
    if n == vals.len() {
        assert(vals.take(n) =~= vals);
        if n >= 2 {
            assert(vals.take(n - 1) =~= vals.drop_last());
        }
    } else {
        assert(vals.drop_last().take(n) =~= vals.take(n));
        if n >= 2 {
            assert(vals.drop_last().take(n - 1) =~= vals.take(n - 1));
        }
        lemma_summable_prefix(vals.drop_last(), n);
    }
}

/// The minimum is one of the values, and no value comes before it.
pub proof fn lemma_min_of_is_least<T: Ord>(vals: Seq<T>)
    requires
        vals.len() > 0,
        obeys_cmp::<T>(),
    ensures
        vals.contains(min_of(vals)),
        forall|j: int| 0 <= j < vals.len() ==> !below(#[trigger] vals[j], min_of(vals)),
    decreases vals.len(),
{
    reveal(obeys_partial_cmp_spec_properties);
    reveal(obeys_cmp_ord);
    let last = vals.last();
    if vals.len() <= 1 {
        assert(vals[0] == min_of(vals));
        assert(last.partial_cmp_spec(&last) == Some(last.cmp_spec(&last)));
        if below(last, last) {
            assert(last.partial_cmp_spec(&last) == Some(Ordering::Greater));
        }
    } else {
        let front = vals.drop_last();
        let rest = min_of(front);
        lemma_min_of_is_least(front);
        let k = choose|k: int| 0 <= k < front.len() && front[k] == rest;
        assert(vals[k] == rest);
        assert(vals[vals.len() - 1] == last);
        assert forall|j: int| 0 <= j < vals.len() implies !below(
            #[trigger] vals[j],
            min_of(vals),
        ) by {
            let x = vals[j];
            if j < front.len() {
                assert(front[j] == x);
                if below(last, rest) && below(x, last) {
                    assert(x.partial_cmp_spec(&last) == Some(x.cmp_spec(&last)));
                    assert(last.partial_cmp_spec(&rest) == Some(last.cmp_spec(&rest)));
                    assert(x.partial_cmp_spec(&rest) == Some(x.cmp_spec(&rest)));
                }
            } else {
                assert(x == last);
                assert(last.partial_cmp_spec(&last) == Some(last.cmp_spec(&last)));
                if below(last, last) {
                    assert(last.partial_cmp_spec(&last) == Some(Ordering::Greater));
                }
            }
        }
    }
}

/// The maximum is one of the values, and no value comes after it.
pub proof fn lemma_max_of_is_greatest<T: Ord>(vals: Seq<T>)
    requires
        vals.len() > 0,
        obeys_cmp::<T>(),
    ensures
        vals.contains(max_of(vals)),
        forall|j: int| 0 <= j < vals.len() ==> !below(max_of(vals), #[trigger] vals[j]),
    decreases vals.len(),
{
    reveal(obeys_partial_cmp_spec_properties);
    reveal(obeys_cmp_ord);
    let last = vals.last();
    if vals.len() <= 1 {
        assert(vals[0] == max_of(vals));
        assert(last.partial_cmp_spec(&last) == Some(last.cmp_spec(&last)));
        if below(last, last) {
            assert(last.partial_cmp_spec(&last) == Some(Ordering::Greater));
        }
    } else {
        let front = vals.drop_last();
        let rest = max_of(front);
        lemma_max_of_is_greatest(front);
        let k = choose|k: int| 0 <= k < front.len() && front[k] == rest;
        assert(vals[k] == rest);
        assert(vals[vals.len() - 1] == last);
        assert forall|j: int| 0 <= j < vals.len() implies !below(
            max_of(vals),
            #[trigger] vals[j],
        ) by {
            let x = vals[j];
            if j < front.len() {
                assert(front[j] == x);
                if below(rest, last) && below(last, x) {
                    assert(last.partial_cmp_spec(&x) == Some(last.cmp_spec(&x)));
                    assert(rest.partial_cmp_spec(&last) == Some(rest.cmp_spec(&last)));
                    assert(rest.partial_cmp_spec(&x) == Some(rest.cmp_spec(&x)));
                }
            } else {
                assert(x == last);
                assert(last.partial_cmp_spec(&last) == Some(last.cmp_spec(&last)));
                if below(last, last) {
                    assert(last.partial_cmp_spec(&last) == Some(Ordering::Greater));
                }
            }
        }
    }
}

} // verus!
