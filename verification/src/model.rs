//! The mathematical model of the queue: a sequence of timestamped elements,
//! oldest first, and what purging does to it.

use crate::queue::QueueElement;
use vstd::prelude::*;

verus! {

/// Whether an element pushed at `time` is still within `max_age` at `now`.
/// An element whose age equals `max_age` is still live.
pub open spec fn is_live(time: int, now: int, max_age: int) -> bool {
    now - time <= max_age
}

/// The elements are in the order of their timestamps, oldest first.
pub open spec fn time_ordered<T>(s: Seq<QueueElement<T>>) -> bool {
    forall|i: int, j: int| 0 <= i <= j < s.len() ==> s[i].time <= s[j].time
}

/// No element is stamped later than `now`.
pub open spec fn none_after<T>(s: Seq<QueueElement<T>>, now: int) -> bool {
    forall|i: int| 0 <= i < s.len() ==> (#[trigger] s[i]).time <= now
}

/// The values of the elements, in the same order.
pub open spec fn values<T>(s: Seq<QueueElement<T>>) -> Seq<T> {
    Seq::new(s.len(), |i: int| s[i].value)
}

/// What is left of `s` once the purge has run at `now`: elements are dropped
/// from the old end for as long as the oldest one is expired.
pub open spec fn purged<T>(s: Seq<QueueElement<T>>, now: int, max_age: int) -> Seq<
    QueueElement<T>,
>
    decreases s.len(),
{
    if s.len() > 0 && !is_live(s[0].time as int, now, max_age) {
        purged(s.skip(1), now, max_age)
    } else {
        s
    }
}

/// The value of the first element of `s`, if there is one.
pub open spec fn oldest_value<T>(s: Seq<QueueElement<T>>) -> Option<T> {
    if s.len() > 0 {
        Some(s[0].value)
    } else {
        None
    }
}

/// `s` without its first element; an empty `s` as it is.
pub open spec fn without_oldest<T>(s: Seq<QueueElement<T>>) -> Seq<QueueElement<T>> {
    if s.len() > 0 {
        s.skip(1)
    } else {
        s
    }
}

/// How many elements the purge drops from `s` at `now`.
pub open spec fn expired_count<T>(s: Seq<QueueElement<T>>, now: int, max_age: int) -> nat
    decreases s.len(),
{
    if s.len() > 0 && !is_live(s[0].time as int, now, max_age) {
        1 + expired_count(s.skip(1), now, max_age)
    } else {
        0
    }
}

/// Every element of `s` is live at `now`.
pub open spec fn all_live<T>(s: Seq<QueueElement<T>>, now: int, max_age: int) -> bool {
    forall|i: int| 0 <= i < s.len() ==> is_live((#[trigger] s[i]).time as int, now, max_age)
}

/// The purge keeps the young end of the sequence: what it leaves is `s`
/// without its first `expired_count` elements.
pub proof fn lemma_purged_is_suffix<T>(s: Seq<QueueElement<T>>, now: int, max_age: int)
    ensures
        expired_count(s, now, max_age) <= s.len(),
        purged(s, now, max_age) == s.skip(expired_count(s, now, max_age) as int),
    decreases s.len(),
{
    if s.len() > 0 && !is_live(s[0].time as int, now, max_age) {
        lemma_purged_is_suffix(s.skip(1), now, max_age);
        let k = expired_count(s.skip(1), now, max_age) as int;
        assert(s.skip(1).skip(k) =~= s.skip(k + 1));
    } else {
        assert(s.skip(0) =~= s);
    }
}

/// After a purge at `now` every element that is left is no older than
/// `max_age`, and every element that was dropped is older.
pub proof fn lemma_purged_age<T>(s: Seq<QueueElement<T>>, now: int, max_age: int)
    requires
        time_ordered(s),
    ensures
        all_live(purged(s, now, max_age), now, max_age),
        time_ordered(purged(s, now, max_age)),
        forall|i: int|
            0 <= i < expired_count(s, now, max_age) ==> !is_live(
                (#[trigger] s[i]).time as int,
                now,
                max_age,
            ),
    decreases s.len(),
{
    if s.len() > 0 && !is_live(s[0].time as int, now, max_age) {
        let rest = s.skip(1);
        assert forall|i: int, j: int| 0 <= i <= j < rest.len() implies rest[i].time
            <= rest[j].time by {
            assert(rest[i] == s[i + 1] && rest[j] == s[j + 1]);
        }
        lemma_purged_age(rest, now, max_age);
        lemma_purged_is_suffix(rest, now, max_age);
        assert forall|i: int| 0 <= i < expired_count(s, now, max_age) implies !is_live(
            (#[trigger] s[i]).time as int,
            now,
            max_age,
        ) by {
            if i > 0 {
                assert(s[i] == rest[i - 1]);
            }
        }
    } else {
        assert forall|i: int| 0 <= i < s.len() implies is_live(
            (#[trigger] s[i]).time as int,
            now,
            max_age,
        ) by {
            assert(s[0].time <= s[i].time);
        }
    }
}

/// A purge that runs again at the same time finds nothing more to drop: a
/// second look at the queue shows what the first one showed.
pub proof fn lemma_purged_twice<T>(s: Seq<QueueElement<T>>, now: int, max_age: int)
    ensures
        purged(purged(s, now, max_age), now, max_age) == purged(s, now, max_age),
        purged(s, now, max_age).len() > 0 ==> is_live(
            purged(s, now, max_age)[0].time as int,
            now,
            max_age,
        ),
    decreases s.len(),
{
    if s.len() > 0 && !is_live(s[0].time as int, now, max_age) {
        lemma_purged_twice(s.skip(1), now, max_age);
    }
}

/// A purge at a later time at which the oldest element is still live
/// leaves the queue as the earlier purge left it.
pub proof fn lemma_purged_again_later<T>(
    s: Seq<QueueElement<T>>,
    now: int,
    later: int,
    max_age: int,
)
    requires
        purged(s, now, max_age).len() > 0 ==> is_live(
            purged(s, now, max_age)[0].time as int,
            later,
            max_age,
        ),
    ensures
        purged(purged(s, now, max_age), later, max_age) == purged(s, now, max_age),
{
}

/// A push drops nothing but what has expired: every element that is live
/// at the time of the push is still in the queue after it, in its old
/// order, and the pushed element comes last. How many elements the queue
/// already holds plays no part.
pub proof fn lemma_push_drops_only_expired<T>(
    s: Seq<QueueElement<T>>,
    pushed: QueueElement<T>,
    max_age: int,
)
    requires
        time_ordered(s),
    ensures
        ({
            let now = pushed.time as int;
            let dropped = expired_count(s, now, max_age) as int;
            let after = purged(s, now, max_age).push(pushed);
            &&& dropped <= s.len()
            &&& after.len() == s.len() - dropped + 1
            &&& after.last() == pushed
            &&& forall|i: int|
                0 <= i < s.len() && is_live((#[trigger] s[i]).time as int, now, max_age) ==> i
                    >= dropped && after[i - dropped] == s[i]
        }),
{
    let now = pushed.time as int;
    lemma_purged_is_suffix(s, now, max_age);
    lemma_purged_age(s, now, max_age);
}

/// The queue `s` after each of `items` has been pushed in turn, at the time
/// that the item carries.
pub open spec fn pushed_all<T>(
    s: Seq<QueueElement<T>>,
    items: Seq<QueueElement<T>>,
    max_age: int,
) -> Seq<QueueElement<T>>
    decreases items.len(),
{
    if items.len() == 0 {
        s
    } else {
        pushed_all(
            purged(s, items[0].time as int, max_age).push(items[0]),
            items.skip(1),
            max_age,
        )
    }
}

/// What comes out of the queue `s` when it is popped once at each of
/// `times`, in turn.
pub open spec fn popped_all<T>(s: Seq<QueueElement<T>>, times: Seq<int>, max_age: int) -> Seq<
    Option<T>,
>
    decreases times.len(),
{
    if times.len() == 0 {
        Seq::empty()
    } else {
        let live = purged(s, times[0], max_age);
        seq![oldest_value(live)] + popped_all(without_oldest(live), times.skip(1), max_age)
    }
}

/// Pushes during which the oldest element never expires only add to the
/// young end of the queue.
pub proof fn lemma_pushes_append<T>(
    s: Seq<QueueElement<T>>,
    items: Seq<QueueElement<T>>,
    max_age: int,
)
    requires
        forall|i: int|
            0 <= i < items.len() ==> is_live(
                (s + items)[0].time as int,
                (#[trigger] items[i]).time as int,
                max_age,
            ),
    ensures
        pushed_all(s, items, max_age) == s + items,
    decreases items.len(),
{
    if items.len() == 0 {
        assert(s + items =~= s);
    } else {
        let first = items[0];
        let rest = items.skip(1);
        if s.len() > 0 {
            assert((s + items)[0] == s[0]);
        }
        assert(purged(s, first.time as int, max_age) == s);
        assert(s.push(first) + rest =~= s + items);
        assert forall|i: int| 0 <= i < rest.len() implies is_live(
            (s.push(first) + rest)[0].time as int,
            (#[trigger] rest[i]).time as int,
            max_age,
        ) by {
            assert(rest[i] == items[i + 1]);
        }
        lemma_pushes_append(s.push(first), rest, max_age);
    }
}

/// Pops before each of which the oldest element is still live hand out the
/// values from the old end of the queue, one after the other.
pub proof fn lemma_pops_from_old_end<T>(s: Seq<QueueElement<T>>, times: Seq<int>, max_age: int)
    requires
        times.len() <= s.len(),
        forall|k: int|
            0 <= k < times.len() ==> is_live((#[trigger] s[k]).time as int, times[k], max_age),
    ensures
        popped_all(s, times, max_age).len() == times.len(),
        forall|k: int|
            0 <= k < times.len() ==> #[trigger] popped_all(s, times, max_age)[k] == Some(
                s[k].value,
            ),
    decreases times.len(),
{
    if times.len() > 0 {
        let rest = s.skip(1);
        let later = times.skip(1);
        assert(is_live(s[0].time as int, times[0], max_age));
        assert(purged(s, times[0], max_age) == s);
        assert forall|k: int| 0 <= k < later.len() implies is_live(
            (#[trigger] rest[k]).time as int,
            later[k],
            max_age,
        ) by {
            assert(rest[k] == s[k + 1]);
            assert(later[k] == times[k + 1]);
        }
        lemma_pops_from_old_end(rest, later, max_age);
        let out = popped_all(s, times, max_age);
        assert(out == seq![oldest_value(s)] + popped_all(rest, later, max_age));
        assert forall|k: int| 0 <= k < times.len() implies #[trigger] out[k] == Some(
            s[k].value,
        ) by {
            if k > 0 {
                assert(out[k] == popped_all(rest, later, max_age)[k - 1]);
                assert(rest[k - 1] == s[k]);
            }
        }
    }
}

/// First in, first out: where `items` are pushed onto an empty queue and
/// then popped, and nothing expires on the way, the pops hand out the values
/// in the order in which they were pushed.
pub proof fn lemma_pops_in_push_order<T>(
    items: Seq<QueueElement<T>>,
    times: Seq<int>,
    max_age: int,
)
    requires
        times.len() <= items.len(),
        forall|i: int|
            0 <= i < items.len() ==> is_live(
                items[0].time as int,
                (#[trigger] items[i]).time as int,
                max_age,
            ),
        forall|k: int|
            0 <= k < times.len() ==> is_live(
                (#[trigger] items[k]).time as int,
                times[k],
                max_age,
            ),
    ensures
        pushed_all(Seq::empty(), items, max_age) == items,
        popped_all(pushed_all(Seq::empty(), items, max_age), times, max_age).len()
            == times.len(),
        forall|k: int|
            0 <= k < times.len() ==> #[trigger] popped_all(
                pushed_all(Seq::empty(), items, max_age),
                times,
                max_age,
            )[k] == Some(items[k].value),
{
    let empty = Seq::<QueueElement<T>>::empty();
    assert(empty + items =~= items);
    lemma_pushes_append(empty, items, max_age);
    lemma_pops_from_old_end(items, times, max_age);
}

} // verus!
