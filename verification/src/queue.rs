//! The queue itself.

use crate::clock::{clock_origin, deque_capacity, duration_nanos, elapsed, nanos_of};
use crate::model::{
    all_live, lemma_purged_age, none_after, oldest_value, purged, time_ordered, values,
    without_oldest,
};
use std::collections::VecDeque;
use std::time::{Duration, Instant};
use vstd::prelude::*;

verus! {

/// A value together with the time at which it was pushed, in nanoseconds on
/// the clock of the queue that holds it.
pub struct QueueElement<T> {
    pub time: u128,
    pub value: T,
}

/// A queue whose elements expire once they are older than `max_age`.
pub struct SumQueue<T> {
    /// The elements, oldest first.
    entries: VecDeque<QueueElement<T>>,
    /// The longest an element may live.
    max_age: Duration,
    /// `max_age` in nanoseconds.
    max_age_nanos: u128,
    /// The instant from which this queue measures time.
    origin: Instant,
    /// The latest time this queue has seen.
    clock: u128,
}

impl<T> View for SumQueue<T> {
    type V = Seq<QueueElement<T>>;

    closed spec fn view(&self) -> Seq<QueueElement<T>> {
        self.entries@
    }
}

impl<T> SumQueue<T> {
    /// The invariant of the queue: its elements are in the order in which
    /// they were pushed, none is stamped later than the latest time the
    /// queue has seen, and the maximum age is held in nanoseconds too.
    pub closed spec fn wf(&self) -> bool {
        &&& time_ordered(self@)
        &&& none_after(self@, self.clock as int)
        &&& self.max_age_nanos == duration_nanos(self.max_age)
    }

    /// The latest time the queue has seen, in nanoseconds on its clock.
    pub closed spec fn clock(&self) -> int {
        self.clock as int
    }

    /// The maximum age as it was given to the constructor.
    pub closed spec fn max_age_spec(&self) -> Duration {
        self.max_age
    }

    /// The maximum age in nanoseconds.
    pub open spec fn max_age_nanos(&self) -> int {
        duration_nanos(self.max_age_spec()) as int
    }

    /// Creates an empty queue whose elements live `max_age_duration` at most.
    pub fn new(max_age_duration: Duration) -> (q: SumQueue<T>)
        ensures
            q.wf(),
            q@ == Seq::<QueueElement<T>>::empty(),
            q.max_age_spec() == max_age_duration,
            q.clock() == 0,
    {
        SumQueue {
            entries: VecDeque::new(),
            max_age: max_age_duration,
            max_age_nanos: nanos_of(max_age_duration),
            origin: clock_origin(),
            clock: 0,
        }
    }

    /// Creates an empty queue with room set aside for `capacity` elements.
    /// The capacity is a hint: the queue grows beyond it as needed.
    pub fn with_capacity(max_age_duration: Duration, capacity: usize) -> (q: SumQueue<T>)
        ensures
            q.wf(),
            q@ == Seq::<QueueElement<T>>::empty(),
            q.max_age_spec() == max_age_duration,
            q.clock() == 0,
    {
        SumQueue {
            entries: VecDeque::with_capacity(capacity),
            max_age: max_age_duration,
            max_age_nanos: nanos_of(max_age_duration),
            origin: clock_origin(),
            clock: 0,
        }
    }

    /// Drops every element that is expired at `now`, oldest first, and stops
    /// at the first one that is not.
    pub fn clear_oldest(&mut self, now: u128)
        requires
            old(self).wf(),
            now >= old(self).clock(),
        ensures
            final(self).wf(),
            final(self)@ == purged(old(self)@, now as int, old(self).max_age_nanos()),
            all_live(final(self)@, now as int, old(self).max_age_nanos()),
            final(self).clock() == now,
            final(self).max_age_spec() == old(self).max_age_spec(),
    {
        proof {
            lemma_purged_age(self@, now as int, self.max_age_nanos());
        }
        while self.entries.len() > 0 && now - self.entries[0].time > self.max_age_nanos
            invariant
                time_ordered(self.entries@),
                none_after(self.entries@, now as int),
                self.max_age == old(self).max_age,
                self.max_age_nanos == old(self).max_age_nanos,
                self.clock == old(self).clock,
                purged(old(self)@, now as int, self.max_age_nanos as int) == purged(
                    self.entries@,
                    now as int,
                    self.max_age_nanos as int,
                ),
            decreases self.entries@.len(),
        {
            let ghost before = self.entries@;
            self.entries.pop_front();
            assert(self.entries@ =~= before.skip(1));
        }
        self.clock = now;
    }

    /// The time on the queue's clock: the nanoseconds that have passed since
    /// the queue was made, as `time_of_reading` takes them from std's
    /// monotonic clock.
    pub fn now(&self) -> (now: u128)
        ensures
            now >= self.clock(),
    {
        let reading: u128 = nanos_of(elapsed(&self.origin));
        self.time_of_reading(reading)
    }

    /// The time that the queue takes from a reading of the clock: the
    /// reading itself, or the latest time the queue has seen where the
    /// reading falls behind it, so that no age is ever negative.
    pub fn time_of_reading(&self, reading: u128) -> (now: u128)
        ensures
            now == if reading < self.clock() {
                self.clock()
            } else {
                reading as int
            },
    {
        if reading < self.clock {
            self.clock
        } else {
            reading
        }
    }

    /// Purges at `now`, then pushes `item` with the timestamp `now`. Returns
    /// the number of elements that the queue then holds.
    pub fn push_at(&mut self, now: u128, item: T) -> (n: usize)
        requires
            old(self).wf(),
            now >= old(self).clock(),
        ensures
            final(self).wf(),
            final(self)@ == purged(old(self)@, now as int, old(self).max_age_nanos()).push(
                (QueueElement { time: now, value: item }),
            ),
            all_live(final(self)@, now as int, old(self).max_age_nanos()),
            n == final(self)@.len(),
            final(self).clock() == now,
            final(self).max_age_spec() == old(self).max_age_spec(),
    {
        self.clear_oldest(now);
        self.entries.push_back(QueueElement { time: now, value: item });
        self.entries.len()
    }

    /// Purges at `now`, then removes the oldest element that is left and
    /// returns its value, or `None` where nothing is left.
    pub fn pop_at(&mut self, now: u128) -> (r: Option<T>)
        requires
            old(self).wf(),
            now >= old(self).clock(),
        ensures
            final(self).wf(),
            final(self)@ == without_oldest(
                purged(old(self)@, now as int, old(self).max_age_nanos()),
            ),
            all_live(final(self)@, now as int, old(self).max_age_nanos()),
            r == oldest_value(purged(old(self)@, now as int, old(self).max_age_nanos())),
            final(self).clock() == now,
            final(self).max_age_spec() == old(self).max_age_spec(),
    {
        self.clear_oldest(now);
        if self.entries.len() == 0 {
            None
        } else {
            let first = self.entries.pop_front();
            match first {
                Some(element) => Some(element.value),
                None => None,
            }
        }
    }

    /// Purges at `now`, then returns the value of the oldest element that
    /// is left, which stays in the queue, or `None` where nothing is left.
    pub fn peek_at(&mut self, now: u128) -> (r: Option<&T>)
        requires
            old(self).wf(),
            now >= old(self).clock(),
        ensures
            final(self).wf(),
            final(self)@ == purged(old(self)@, now as int, old(self).max_age_nanos()),
            all_live(final(self)@, now as int, old(self).max_age_nanos()),
            match r {
                Some(v) => oldest_value(final(self)@) == Some(*v),
                None => oldest_value(final(self)@).is_none(),
            },
            final(self).clock() == now,
            final(self).max_age_spec() == old(self).max_age_spec(),
    {
        self.clear_oldest(now);
        if self.entries.len() == 0 {
            None
        } else {
            Some(&self.entries[0].value)
        }
    }

    /// Purges at `now`, then returns the number of elements that are left.
    pub fn len_at(&mut self, now: u128) -> (n: usize)
        requires
            old(self).wf(),
            now >= old(self).clock(),
        ensures
            final(self).wf(),
            final(self)@ == purged(old(self)@, now as int, old(self).max_age_nanos()),
            all_live(final(self)@, now as int, old(self).max_age_nanos()),
            n == final(self)@.len(),
            final(self).clock() == now,
            final(self).max_age_spec() == old(self).max_age_spec(),
    {
        self.clear_oldest(now);
        self.entries.len()
    }

    /// Purges at `now`, then says whether nothing is left.
    pub fn is_empty_at(&mut self, now: u128) -> (b: bool)
        requires
            old(self).wf(),
            now >= old(self).clock(),
        ensures
            final(self).wf(),
            final(self)@ == purged(old(self)@, now as int, old(self).max_age_nanos()),
            all_live(final(self)@, now as int, old(self).max_age_nanos()),
            b == (final(self)@.len() == 0),
            final(self).clock() == now,
            final(self).max_age_spec() == old(self).max_age_spec(),
    {
        self.len_at(now) == 0
    }

    /// Purges at `now`, then returns a walk over the values that are left,
    /// oldest first.
    pub fn iter_at(&mut self, now: u128) -> (it: Iter<'_, T>)
        requires
            old(self).wf(),
            now >= old(self).clock(),
        ensures
            final(self).wf(),
            final(self)@ == purged(old(self)@, now as int, old(self).max_age_nanos()),
            all_live(final(self)@, now as int, old(self).max_age_nanos()),
            it.wf(),
            it@ == values(final(self)@),
            final(self).clock() == now,
            final(self).max_age_spec() == old(self).max_age_spec(),
    {
        self.clear_oldest(now);
        assert(self.entries@.skip(0) =~= self.entries@);
        Iter { entries: &self.entries, pos: 0 }
    }

    /// Walks the live values at the time the clock shows; see `iter_at`.
    pub fn iter(&mut self) -> (it: Iter<'_, T>)
        requires
            old(self).wf(),
        ensures
            final(self).wf(),
            final(self).clock() >= old(self).clock(),
            final(self)@ == purged(old(self)@, final(self).clock(), old(self).max_age_nanos()),
            all_live(final(self)@, final(self).clock(), old(self).max_age_nanos()),
            it.wf(),
            it@ == values(final(self)@),
            final(self).max_age_spec() == old(self).max_age_spec(),
    {
        let now: u128 = self.now();
        self.iter_at(now)
    }

    /// Drops every element, expired or not. The clock is left as it is.
    pub fn clear(&mut self)
        requires
            old(self).wf(),
        ensures
            final(self).wf(),
            final(self)@ == Seq::<QueueElement<T>>::empty(),
            final(self).clock() == old(self).clock(),
            final(self).max_age_spec() == old(self).max_age_spec(),
    {
        self.entries.clear();
    }

    /// The elements as they are stored, oldest first.
    pub(crate) fn entries(&self) -> (entries: &VecDeque<QueueElement<T>>)
        ensures
            entries@ == self@,
    {
        &self.entries
    }

    /// The number of elements the queue can hold before it has to grow.
    pub fn capacity(&self) -> (c: usize)
        ensures
            c >= self@.len(),
    {
        deque_capacity(&self.entries)
    }

    /// The longest an element may live in the queue.
    pub fn max_age(&self) -> (d: Duration)
        ensures
            d == self.max_age_spec(),
    {
        self.max_age
    }

    /// Pushes `item` at the time the clock shows; see `push_at`.
    pub fn push(&mut self, item: T) -> (n: usize)
        requires
            old(self).wf(),
        ensures
            final(self).wf(),
            final(self).clock() >= old(self).clock(),
            final(self)@ == purged(
                old(self)@,
                final(self).clock(),
                old(self).max_age_nanos(),
            ).push((QueueElement { time: final(self).clock() as u128, value: item })),
            all_live(final(self)@, final(self).clock(), old(self).max_age_nanos()),
            n == final(self)@.len(),
            final(self).max_age_spec() == old(self).max_age_spec(),
    {
        let now: u128 = self.now();
        self.push_at(now, item)
    }

    /// Pops at the time the clock shows; see `pop_at`.
    pub fn pop(&mut self) -> (r: Option<T>)
        requires
            old(self).wf(),
        ensures
            final(self).wf(),
            final(self).clock() >= old(self).clock(),
            final(self)@ == without_oldest(
                purged(old(self)@, final(self).clock(), old(self).max_age_nanos()),
            ),
            all_live(final(self)@, final(self).clock(), old(self).max_age_nanos()),
            r == oldest_value(
                purged(old(self)@, final(self).clock(), old(self).max_age_nanos()),
            ),
            final(self).max_age_spec() == old(self).max_age_spec(),
    {
        let now: u128 = self.now();
        self.pop_at(now)
    }

    /// Peeks at the time the clock shows; see `peek_at`.
    pub fn peek(&mut self) -> (r: Option<&T>)
        requires
            old(self).wf(),
        ensures
            final(self).wf(),
            final(self).clock() >= old(self).clock(),
            final(self)@ == purged(old(self)@, final(self).clock(), old(self).max_age_nanos()),
            all_live(final(self)@, final(self).clock(), old(self).max_age_nanos()),
            match r {
                Some(v) => oldest_value(final(self)@) == Some(*v),
                None => oldest_value(final(self)@).is_none(),
            },
            final(self).max_age_spec() == old(self).max_age_spec(),
    {
        let now: u128 = self.now();
        self.peek_at(now)
    }

    /// Counts the live elements at the time the clock shows; see `len_at`.
    /// On a queue that is otherwise left alone, this is the call that lets
    /// go of what has expired.
    pub fn len(&mut self) -> (n: usize)
        requires
            old(self).wf(),
        ensures
            final(self).wf(),
            final(self).clock() >= old(self).clock(),
            final(self)@ == purged(old(self)@, final(self).clock(), old(self).max_age_nanos()),
            all_live(final(self)@, final(self).clock(), old(self).max_age_nanos()),
            n == final(self)@.len(),
            final(self).max_age_spec() == old(self).max_age_spec(),
    {
        let now: u128 = self.now();
        self.len_at(now)
    }

    /// Whether no element is live at the time the clock shows.
    pub fn is_empty(&mut self) -> (b: bool)
        requires
            old(self).wf(),
        ensures
            final(self).wf(),
            final(self).clock() >= old(self).clock(),
            final(self)@ == purged(old(self)@, final(self).clock(), old(self).max_age_nanos()),
            all_live(final(self)@, final(self).clock(), old(self).max_age_nanos()),
            b == (final(self)@.len() == 0),
            final(self).max_age_spec() == old(self).max_age_spec(),
    {
        self.len() == 0
    }
}

/// A walk over the live values of a queue, oldest first. It borrows the
/// queue and leaves it as it is.
pub struct Iter<'a, T> {
    entries: &'a VecDeque<QueueElement<T>>,
    pos: usize,
}

impl<'a, T> View for Iter<'a, T> {
    type V = Seq<T>;

    /// The values still to come, in the order in which they will come.
    closed spec fn view(&self) -> Seq<T> {
        values(self.entries@.skip(self.pos as int))
    }
}

impl<'a, T> Iter<'a, T> {
    /// The walk has not run past the end of the queue.
    pub closed spec fn wf(&self) -> bool {
        self.pos <= self.entries@.len()
    }

    /// The next value, or `None` once all have been given.
    pub fn next(&mut self) -> (r: Option<&'a T>)
        requires
            old(self).wf(),
        ensures
            final(self).wf(),
            match r {
                Some(v) => old(self)@.len() > 0 && *v == old(self)@[0] && final(self)@ == old(
                    self,
                )@.skip(1),
                None => old(self)@.len() == 0 && final(self)@ == old(self)@,
            },
    {
        if self.pos < self.entries.len() {
            let v = &self.entries[self.pos].value;
            assert(self@[0] == *v);
            assert(values(self.entries@.skip(self.pos + 1)) =~= self@.skip(1));
            self.pos = self.pos + 1;
            Some(v)
        } else {
            None
        }
    }

    /// All the values still to come, in order.
    pub fn collect(self) -> (out: Vec<&'a T>)
        requires
            self.wf(),
        ensures
            out@.len() == self@.len(),
            forall|i: int| 0 <= i < out@.len() ==> *(#[trigger] out@[i]) == self@[i],
    {
        let mut out: Vec<&'a T> = Vec::new();
        let n: usize = self.entries.len();
        let mut i: usize = self.pos;
        while i < n
            invariant
                n == self.entries@.len(),
                self.pos <= i <= n,
                out@.len() == i - self.pos,
                forall|j: int|
                    0 <= j < out@.len() ==> *(#[trigger] out@[j]) == self.entries@[self.pos
                        + j].value,
            decreases n - i,
        {
            out.push(&self.entries[i].value);
            i = i + 1;
        }
        out
    }
}

} // verus!
