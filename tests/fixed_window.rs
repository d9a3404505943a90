use limitr::window::FixedWindowCounter;
use std::time::Duration;

fn pause(secs: u64) {
    let rt = tokio::runtime::Runtime::new().unwrap();
    rt.block_on(async { tokio::time::sleep(Duration::from_secs(secs)).await });
}

#[test]
fn fixed_window_test_allows_requests_under_limit() {
    let mut counter = FixedWindowCounter::new(5, 60);

    for _ in 0..5 {
        assert!(counter.try_consume(), "Request should be allowed");
    }

    assert!(!counter.try_consume(), "Request should be rate-limited");

    let windows = counter.recorded_windows();
    let window_key = windows[0];
    assert_eq!(
        counter.count_in(window_key),
        5,
        "Should have recorded 5 requests in the current window"
    );
}

#[test]
fn test_allows_new_window_requests() {
    let mut counter = FixedWindowCounter::new(3, 2);

    for _ in 0..3 {
        assert!(counter.try_consume(), "Request should be allowed");
    }

    pause(3);
    counter.clear_old_windows();

    assert!(
        counter.try_consume(),
        "Request should be allowed in the new window"
    );

    assert_eq!(counter.window_count(), 1, "There should be exactly 1 active window");
}

#[test]
fn test_clears_old_windows() {
    let mut counter = FixedWindowCounter::new(3, 2);

    for _ in 0..3 {
        assert!(counter.try_consume(), "Request should be allowed");
    }

    counter.clear_old_windows();

    assert!(
        counter.window_count() != 0,
        "Windows should contain data after clearing"
    );

    pause(3);

    counter.clear_old_windows();

    assert_eq!(
        counter.window_count(),
        0,
        "Windows should be empty after clearing old windows"
    );
}

#[test]
fn fixed_boundary_burst_is_reproducible() {
    let mut counter = FixedWindowCounter::new(5, 10);
    for _ in 0..5 {
        assert!(counter.try_consume_at(1000));
    }
    assert!(!counter.try_consume_at(1009));
    counter.clear_old_windows_at(1010);
    for _ in 0..5 {
        assert!(counter.try_consume_at(1010));
    }
    assert!(!counter.try_consume_at(1019));
    assert_eq!(counter.window_count(), 1);
    assert_eq!(counter.count_in(101), 5);
    assert_eq!(counter.count_in(100), 0);
}

#[test]
fn fixed_windows_are_epoch_aligned() {
    let mut counter = FixedWindowCounter::new(2, 60);
    assert!(counter.try_consume_at(119));
    assert!(counter.try_consume_at(120));
    assert!(counter.try_consume_at(179));
    assert!(!counter.try_consume_at(150));
    assert_eq!(counter.count_in(1), 1);
    assert_eq!(counter.count_in(2), 2);
    let mut keys = counter.recorded_windows();
    keys.sort();
    assert_eq!(keys, vec![1, 2]);
}

#[test]
fn fixed_clear_twice_same_as_once() {
    let mut counter = FixedWindowCounter::new(3, 10);
    assert!(counter.try_consume_at(5));
    assert!(counter.try_consume_at(15));
    assert!(counter.try_consume_at(25));
    counter.clear_old_windows_at(17);
    let mut once = counter.recorded_windows();
    once.sort();
    counter.clear_old_windows_at(17);
    let mut twice = counter.recorded_windows();
    twice.sort();
    assert_eq!(once, vec![1, 2]);
    assert_eq!(once, twice);
    assert_eq!(counter.count_in(1), 1);
    assert_eq!(counter.count_in(2), 1);
}

#[test]
fn fixed_clear_keeps_future_windows() {
    let mut counter = FixedWindowCounter::new(1, 10);
    assert!(counter.try_consume_at(500));
    counter.clear_old_windows_at(100);
    assert_eq!(counter.window_count(), 1);
    counter.clear_old_windows_at(509);
    assert_eq!(counter.window_count(), 1);
    counter.clear_old_windows_at(510);
    assert_eq!(counter.window_count(), 0);
}

#[test]
fn fixed_reads_the_wall_clock() {
    let mut counter = FixedWindowCounter::new(1, 1);
    assert!(counter.try_consume());
    let keys = counter.recorded_windows();
    assert_eq!(keys.len(), 1);
    // Seconds since the epoch: well past September 2020.
    assert!(keys[0] > 1_600_000_000);
}
