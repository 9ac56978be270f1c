use homeworks::counters;
use homeworks::counters::CounterOps as StepOps;
use homeworks::counters_by;
use homeworks::counters_by::CounterOps as ByOps;

#[test]
fn counter_ops_test_default_signed_counter() {
    let counter = counters::SignedCounterOps::default();
    assert_eq!(counter.counter(), 0);
    let counter = <counters_by::SignedCounterOps as ByOps<isize>>::default();
    assert_eq!(counter.counter(), 0);
}

#[test]
fn counter_ops_test_default_unsigned_counter() {
    let counter = counters::UnsignedCounterOps::default();
    assert_eq!(counter.counter(), 0);
    let counter = <counters_by::UnsignedCounterOps as ByOps<usize>>::default();
    assert_eq!(counter.counter(), 0);
}

#[test]
fn counter_ops_test_next_signed() {
    let mut counter = counters::SignedCounterOps::default();
    assert_eq!(counter.next(), 1);
    assert_eq!(counter.next(), 2);
    assert_eq!(counter.next(), 3);

    let mut counter = <counters_by::SignedCounterOps as ByOps<isize>>::default();
    assert_eq!(counter.next(1), 1);
    assert_eq!(counter.next(-1), 0);
    assert_eq!(counter.next(2), 2);
}

#[test]
fn counter_ops_test_next_unsigned() {
    let mut counter = counters::UnsignedCounterOps::default();
    assert_eq!(counter.next(), 1);
    assert_eq!(counter.next(), 2);
    assert_eq!(counter.next(), 3);

    let mut counter = <counters_by::UnsignedCounterOps as ByOps<usize>>::default();
    assert_eq!(counter.next(0), 0);
    assert_eq!(counter.next(1), 1);
    assert_eq!(counter.next(10), 11);
}

#[test]
fn counter_ops_test_prev_signed() {
    let mut counter = counters::SignedCounterOps::default();
    assert_eq!(counter.next(), 1);
    assert_eq!(counter.next(), 2);
    assert_eq!(counter.prev(), 1);
    assert_eq!(counter.prev(), 0);

    let mut counter = <counters_by::SignedCounterOps as ByOps<isize>>::default();
    assert_eq!(counter.prev(1), -1);
    assert_eq!(counter.prev(1), -2);
    assert_eq!(counter.prev(-1), -1);
}

#[test]
fn unsigned_prev_stops_at_zero() {
    let mut counter = counters::UnsignedCounterOps::default();
    assert_eq!(counter.prev(), 0);
    assert_eq!(counter.next(), 1);
    assert_eq!(counter.prev(), 0);

    let mut counter = <counters_by::UnsignedCounterOps as ByOps<usize>>::default();
    assert_eq!(counter.next(5), 5);
    assert_eq!(counter.prev(3), 2);
    assert_eq!(counter.prev(10), 0);
}

#[test]
fn next_then_prev_returns_to_start() {
    let mut counter = counters::SignedCounterOps::default();
    counter.next();
    counter.prev();
    assert_eq!(counter.counter(), 0);
    let mut counter = <counters_by::SignedCounterOps as ByOps<isize>>::default();
    counter.next(7);
    assert_eq!(counter.prev(7), 0);
}

#[allow(dead_code)]
fn uses_step_trait<C: StepOps>(_c: &C) {}
