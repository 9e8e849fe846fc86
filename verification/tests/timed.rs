use std::time::{Duration, Instant};
use sum_queue::{QueueStats, SumQueue};

const SEC: u128 = 1_000_000_000;

fn values(queue: &mut SumQueue<i32>, now: u128) -> Vec<i32> {
    queue.iter_at(now).collect().into_iter().copied().collect()
}

fn same_stats(a: &QueueStats<i64>, b: &QueueStats<i64>) -> bool {
    a.min == b.min && a.max == b.max && a.sum == b.sum && a.len == b.len
}

#[test]
fn window_of_two_seconds() {
    let mut queue: SumQueue<i32> = SumQueue::new(Duration::from_secs(2));
    queue.push_at(0, 1);
    queue.push_at(0, 5);
    queue.push_at(0, 2);
    assert_eq!(values(&mut queue, 0), vec![1, 5, 2]);
    assert_eq!(values(&mut queue, SEC), vec![1, 5, 2]);
    assert_eq!(queue.push_at(SEC, 50), 4);
    assert_eq!(values(&mut queue, 3 * SEC), vec![50]);
    assert_eq!(values(&mut queue, 5 * SEC), Vec::<i32>::new());
}

#[test]
fn age_equal_to_max_age_is_kept() {
    let mut queue: SumQueue<i32> = SumQueue::new(Duration::from_millis(200));
    queue.push_at(7, 1);
    assert_eq!(queue.len_at(200_000_007), 1);
    assert_eq!(queue.len_at(200_000_008), 0);
}

#[test]
fn purge_stops_at_first_live_element() {
    let mut queue: SumQueue<i32> = SumQueue::new(Duration::from_nanos(10));
    queue.push_at(0, 1);
    queue.push_at(5, 2);
    queue.push_at(9, 3);
    queue.clear_oldest(15);
    assert_eq!(values(&mut queue, 15), vec![2, 3]);
    queue.clear_oldest(19);
    assert_eq!(values(&mut queue, 19), vec![3]);
    queue.clear_oldest(20);
    assert_eq!(queue.len_at(20), 0);
}

#[test]
fn zero_max_age_keeps_only_the_present() {
    let mut queue: SumQueue<i32> = SumQueue::new(Duration::from_secs(0));
    assert_eq!(queue.push_at(1, 10), 1);
    assert_eq!(queue.push_at(1, 11), 2);
    assert_eq!(queue.push_at(2, 12), 1);
    assert_eq!(queue.peek_at(2), Some(&12));
    assert_eq!(queue.pop_at(3), None);
}

#[test]
fn pop_on_empty_is_none() {
    let mut queue: SumQueue<i32> = SumQueue::new(Duration::from_secs(1));
    assert_eq!(queue.pop(), None);
    assert_eq!(queue.pop_at(u128::MAX), None);
    assert_eq!(queue.peek(), None);
    assert!(queue.is_empty());
}

#[test]
fn pops_come_in_push_order() {
    let mut queue: SumQueue<i32> = SumQueue::new(Duration::from_secs(60));
    let pushed = [7, -3, 7, 0, 42, 1];
    let mut t: u128 = 0;
    for v in pushed {
        queue.push_at(t, v);
        t += SEC;
    }
    let mut popped = Vec::new();
    while let Some(v) = queue.pop_at(t) {
        popped.push(v);
        t += SEC;
    }
    assert_eq!(popped, pushed.to_vec());
}

#[test]
fn equal_timestamps_lose_nothing() {
    let mut queue: SumQueue<i32> = SumQueue::new(Duration::from_secs(1));
    for v in 0..10 {
        queue.push_at(5, v);
    }
    assert_eq!(queue.len_at(5), 10);
    assert_eq!(values(&mut queue, 5), (0..10).collect::<Vec<i32>>());
}

#[test]
fn looking_twice_shows_the_same() {
    let mut queue: SumQueue<i32> = SumQueue::new(Duration::from_secs(2));
    queue.push_at(0, 1);
    queue.push_at(SEC, 2);
    queue.push_at(2 * SEC, 3);
    let first = values(&mut queue, 5 * SEC / 2);
    let second = values(&mut queue, 5 * SEC / 2);
    assert_eq!(first, vec![2, 3]);
    assert_eq!(first, second);
    assert_eq!(queue.peek_at(5 * SEC / 2), Some(&2));
    assert_eq!(queue.peek_at(5 * SEC / 2), Some(&2));
    assert_eq!(queue.len_at(5 * SEC / 2), 2);
}

#[test]
fn iterator_steps_and_collects_the_rest() {
    let mut queue: SumQueue<i32> = SumQueue::new(Duration::from_secs(2));
    queue.push_at(0, 4);
    queue.push_at(1, 5);
    queue.push_at(2, 6);
    let mut it = queue.iter_at(2);
    assert_eq!(it.next(), Some(&4));
    assert_eq!(it.collect(), vec![&5, &6]);
    let mut it = queue.iter_at(2);
    assert_eq!(it.next(), Some(&4));
    assert_eq!(it.next(), Some(&5));
    assert_eq!(it.next(), Some(&6));
    assert_eq!(it.next(), None);
    assert_eq!(it.next(), None);
}

#[test]
fn stats_of_empty_queue() {
    let mut queue: SumQueue<i64> = SumQueue::new(Duration::from_secs(1000));
    let stats = queue.stats();
    assert_eq!(stats.min, None);
    assert_eq!(stats.max, None);
    assert_eq!(stats.sum, None);
    assert_eq!(stats.len, 0);
}

#[test]
fn stats_of_three_values() {
    let mut queue: SumQueue<i64> = SumQueue::new(Duration::from_secs(1000));
    queue.push(-10);
    queue.push(50);
    queue.push(20);
    let stats = queue.stats();
    assert_eq!(stats.min, Some(-10));
    assert_eq!(stats.max, Some(50));
    assert_eq!(stats.sum, Some(60));
    assert_eq!(stats.len, 3);
}

#[test]
fn stats_count_only_live_values() {
    let mut queue: SumQueue<i64> = SumQueue::new(Duration::from_secs(2));
    queue.push_at(0, 1000);
    queue.push_at(SEC, -7);
    queue.push_at(2 * SEC, 9);
    let stats = queue.stats_at(3 * SEC);
    assert_eq!(stats.min, Some(-7));
    assert_eq!(stats.max, Some(9));
    assert_eq!(stats.sum, Some(2));
    assert_eq!(stats.len, 2);
    let stats = queue.stats_at(10 * SEC);
    assert_eq!(stats.min, None);
    assert_eq!(stats.max, None);
    assert_eq!(stats.sum, None);
    assert_eq!(stats.len, 0);
}

#[test]
fn stats_on_unsigned_values() {
    let mut queue: SumQueue<u8> = SumQueue::new(Duration::from_secs(2));
    queue.push_at(0, 200);
    queue.push_at(0, 55);
    let stats = queue.stats_at(0);
    assert_eq!(stats.min, Some(55));
    assert_eq!(stats.max, Some(200));
    assert_eq!(stats.sum, Some(255));
    assert_eq!(stats.len, 2);
}

#[test]
fn push_and_stats_is_push_then_stats() {
    let mut one: SumQueue<i64> = SumQueue::new(Duration::from_secs(2));
    let mut two: SumQueue<i64> = SumQueue::new(Duration::from_secs(2));
    for (t, v) in [(0, 4), (SEC, -9), (2 * SEC, 30)] {
        one.push_at(t, v);
        two.push_at(t, v);
    }
    let combined = one.push_and_stats_at(3 * SEC, 8);
    two.push_at(3 * SEC, 8);
    let apart = two.stats_at(3 * SEC);
    assert!(same_stats(&combined, &apart));
    assert_eq!(combined.min, Some(-9));
    assert_eq!(combined.max, Some(30));
    assert_eq!(combined.sum, Some(29));
    assert_eq!(combined.len, 3);
    assert_eq!(one._stats(3).sum, Some(29));
}

#[test]
fn capacity_is_a_hint() {
    let mut queue: SumQueue<i32> = SumQueue::with_capacity(Duration::from_secs(60), 2);
    assert!(queue.capacity() >= 2);
    for v in 0..100 {
        assert_eq!(queue.push(v), (v + 1) as usize);
    }
    assert_eq!(queue.len(), 100);
    assert!(queue.capacity() >= 100);
    let mut roomy: SumQueue<char> = SumQueue::with_capacity(Duration::from_secs(60), 5);
    assert!(roomy.capacity() >= 5);
    assert_eq!(roomy.len(), 0);
}

#[test]
fn max_age_is_what_was_given() {
    let queue: SumQueue<char> = SumQueue::new(Duration::from_secs(60));
    assert_eq!(queue.max_age().as_secs(), 60);
    assert_eq!(queue.max_age(), Duration::from_secs(60));
    let queue: SumQueue<char> = SumQueue::with_capacity(Duration::from_millis(500), 20);
    assert_eq!(queue.max_age(), Duration::from_millis(500));
}

#[test]
fn clock_moves_forward() {
    let mut queue: SumQueue<i32> = SumQueue::new(Duration::from_secs(60));
    let before = queue.now();
    let start = Instant::now();
    while start.elapsed() < Duration::from_millis(20) {
        std::hint::spin_loop();
    }
    let after = queue.now();
    assert!(after >= before + 20_000_000);
    queue.push_at(after + SEC, 1);
    assert!(queue.now() >= after + SEC);
}

#[test]
fn reading_behind_the_clock_is_raised() {
    let mut queue: SumQueue<i32> = SumQueue::new(Duration::from_secs(60));
    assert_eq!(queue.time_of_reading(0), 0);
    assert_eq!(queue.time_of_reading(17), 17);
    queue.push_at(100, 1);
    assert_eq!(queue.time_of_reading(99), 100);
    assert_eq!(queue.time_of_reading(100), 100);
    assert_eq!(queue.time_of_reading(101), 101);
}

#[test]
fn clear_drops_live_elements_too() {
    let mut queue: SumQueue<i32> = SumQueue::new(Duration::from_secs(60));
    queue.push_at(1, 1);
    queue.push_at(2, 2);
    queue.clear();
    assert_eq!(queue.len_at(2), 0);
    assert!(queue.is_empty_at(2));
    assert_eq!(queue.push_at(2, 3), 1);
    assert!(!queue.is_empty_at(2));
}
