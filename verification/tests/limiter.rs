use otlp_embedded::limiter::MyLimiter;
use otlp_embedded::size::add_sizes;

#[test]
fn new_limiter_counts_nothing() {
    let limiter = MyLimiter::new(1000, 3);
    assert_eq!(limiter.estimated_memory_usage(), 0);
    assert!(!limiter.is_over_the_limit(3));
    assert!(limiter.is_over_the_limit(4));
}

#[test]
fn insert_counts_and_removal_uncounts() {
    let mut limiter = MyLimiter::new(1000, 3);
    assert!(limiter.on_insert(0, 400));
    assert!(limiter.on_insert(1, 500));
    assert_eq!(limiter.estimated_memory_usage(), 900);
    limiter.on_removed(400);
    assert_eq!(limiter.estimated_memory_usage(), 500);
    limiter.on_cleared();
    assert_eq!(limiter.estimated_memory_usage(), 0);
}

#[test]
fn memory_over_its_bound_is_over_the_limit_but_no_reason_to_refuse() {
    let mut limiter = MyLimiter::new(1000, 3);
    assert!(limiter.on_insert(0, 1000));
    assert!(!limiter.is_over_the_limit(1));
    assert!(limiter.on_insert(1, 1));
    assert_eq!(limiter.estimated_memory_usage(), 1001);
    assert!(limiter.is_over_the_limit(2));
    assert!(limiter.is_over_the_limit(0));
}

#[test]
fn length_bound_of_zero_refuses_everything() {
    let mut limiter = MyLimiter::new(1000, 0);
    assert!(!limiter.on_insert(0, 0));
    assert!(!limiter.on_insert(0, 10));
    assert_eq!(limiter.estimated_memory_usage(), 0);
    assert!(!limiter.is_over_the_limit(0));
    assert!(limiter.is_over_the_limit(1));
}

#[test]
fn a_total_that_does_not_fit_the_word_is_refused() {
    let mut limiter = MyLimiter::new(usize::MAX, 3);
    assert!(limiter.on_insert(0, usize::MAX - 1));
    assert!(!limiter.on_insert(1, 2));
    assert_eq!(limiter.estimated_memory_usage(), usize::MAX - 1);
    assert!(limiter.on_insert(1, 1));
    assert_eq!(limiter.estimated_memory_usage(), usize::MAX);
}

#[test]
fn the_table_may_always_grow() {
    let limiter = MyLimiter::new(0, 0);
    assert!(limiter.on_grow(0));
    assert!(limiter.on_grow(usize::MAX));
}

#[test]
fn sizes_add_up_and_stop_at_the_largest_number() {
    assert_eq!(add_sizes(0, 0), 0);
    assert_eq!(add_sizes(3, 4), 7);
    assert_eq!(add_sizes(usize::MAX - 1, 1), usize::MAX);
    assert_eq!(add_sizes(usize::MAX, 1), usize::MAX);
    assert_eq!(add_sizes(usize::MAX, usize::MAX), usize::MAX);
}
