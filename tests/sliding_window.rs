use limitr::window::SlidingWindowCounter;
use std::sync::Arc;
use std::time::Duration;
use tokio::sync::Mutex;

const SEC: u128 = 1_000_000_000;

fn pause(secs: u64) {
    let rt = tokio::runtime::Runtime::new().unwrap();
    rt.block_on(async { tokio::time::sleep(Duration::from_secs(secs)).await });
}

#[test]
fn sliding_window_test_allows_requests_under_limit() {
    let mut limiter = SlidingWindowCounter::new(5, 10 * SEC);

    for _ in 0..5 {
        assert!(limiter.try_consume(), "Request should be allowed");
    }
}

#[test]
fn test_rate_limits_when_limit_exceeded() {
    let mut limiter = SlidingWindowCounter::new(3, 10 * SEC);

    for _ in 0..3 {
        assert!(limiter.try_consume(), "Request should be allowed");
    }

    // 4th request should be denied since limit is 3
    assert!(!limiter.try_consume(), "Request should be rate-limited");
}

#[test]
fn test_eviction_of_old_requests() {
    let mut limiter = SlidingWindowCounter::new(3, 2 * SEC);

    for _ in 0..3 {
        assert!(limiter.try_consume(), "Request should be allowed");
    }

    pause(3);

    assert!(
        limiter.try_consume(),
        "Request should be allowed after window expiration"
    );
}

#[test]
fn test_mixed_behavior() {
    let mut limiter = SlidingWindowCounter::new(5, 5 * SEC);

    for _ in 0..4 {
        assert!(limiter.try_consume(), "Request should be allowed");
    }

    assert!(limiter.try_consume(), "Request should be allowed");

    assert!(!limiter.try_consume(), "Request should be rate-limited");

    pause(6);

    assert!(
        limiter.try_consume(),
        "Request should be allowed after window expiration"
    );
}

#[test]
fn test_concurrent_access() {
    let rt = tokio::runtime::Runtime::new().unwrap();
    let allowed_count = rt.block_on(async {
        let limiter = Arc::new(Mutex::new(SlidingWindowCounter::new(5, 10 * SEC)));

        let mut handles = vec![];

        for _ in 0..10 {
            let limiter_clone = limiter.clone();
            let handle = tokio::spawn(async move {
                let mut limiter = limiter_clone.lock().await;
                limiter.try_consume()
            });
            handles.push(handle);
        }

        let mut allowed_count = 0;
        for handle in handles {
            if handle.await.unwrap() {
                allowed_count += 1;
            }
        }
        allowed_count
    });

    assert_eq!(
        allowed_count, 5,
        "Only 5 requests should be allowed due to the limit"
    );
}

#[test]
fn sliding_exact_after_window_passes() {
    let t0: u128 = 1_700_000_000 * SEC;
    let mut limiter = SlidingWindowCounter::new(3, 2 * SEC);
    for _ in 0..3 {
        assert!(limiter.try_consume_at(t0));
    }
    assert!(!limiter.try_consume_at(t0));
    assert!(limiter.try_consume_at(t0 + 3 * SEC));
    assert_eq!(limiter.request_count(), 1);
}

#[test]
fn sliding_request_at_window_edge_still_counts() {
    let t0: u128 = 50 * SEC;
    let mut limiter = SlidingWindowCounter::new(1, 2 * SEC);
    assert!(limiter.try_consume_at(t0));
    // Exactly one window later the first request is still inside.
    assert!(!limiter.try_consume_at(t0 + 2 * SEC));
    assert!(limiter.try_consume_at(t0 + 2 * SEC + 1));
    assert_eq!(limiter.request_count(), 1);
}

#[test]
fn sliding_no_boundary_burst() {
    let mut limiter = SlidingWindowCounter::new(5, 10 * SEC);
    for i in 0..5u128 {
        assert!(limiter.try_consume_at(9 * SEC + i));
    }
    // Across the ten-second mark, the trailing window still holds five.
    assert!(!limiter.try_consume_at(11 * SEC));
    assert!(!limiter.try_consume_at(19 * SEC));
    // Only the request at 9 s has left the window ending at 19 s + 1 ns.
    assert!(limiter.try_consume_at(19 * SEC + 1));
    assert!(!limiter.try_consume_at(19 * SEC + 1));
    assert_eq!(limiter.request_count(), 5);
}

#[test]
fn sliding_many_requests_in_one_window_admit_limit() {
    let mut limiter = SlidingWindowCounter::new(5, 10 * SEC);
    let times: [u128; 12] = [7, 3, 9, 1, 10, 0, 4, 8, 2, 6, 5, 10];
    let mut admitted = 0;
    for t in times {
        if limiter.try_consume_at(100 * SEC + t * SEC) {
            admitted += 1;
        }
    }
    assert_eq!(admitted, 5);
    assert_eq!(limiter.request_count(), 5);
}

#[test]
fn sliding_sub_second_window() {
    let t0: u128 = 7 * SEC;
    let mut limiter = SlidingWindowCounter::new(2, SEC / 2);
    assert!(limiter.try_consume_at(t0));
    assert!(limiter.try_consume_at(t0 + SEC / 4));
    assert!(!limiter.try_consume_at(t0 + SEC / 2));
    // Half a second and one nanosecond later, the first request has left.
    assert!(limiter.try_consume_at(t0 + SEC / 2 + 1));
    assert_eq!(limiter.request_count(), 2);
}

#[test]
fn sliding_fractional_window_is_not_truncated() {
    let t0: u128 = 3 * SEC;
    let mut limiter = SlidingWindowCounter::new(1, 3 * SEC / 2);
    assert!(limiter.try_consume_at(t0));
    // 1.2 s later the request is still inside a 1.5 s window.
    assert!(!limiter.try_consume_at(t0 + 12 * SEC / 10));
    assert!(limiter.try_consume_at(t0 + 16 * SEC / 10));
}

#[test]
fn sliding_reads_the_wall_clock() {
    let mut limiter = SlidingWindowCounter::new(1, 1 * SEC);
    assert!(limiter.try_consume());
    // The logged time is real: a request at the epoch sees it as ahead and
    // keeps it, while one far in the future evicts it.
    assert!(!limiter.try_consume_at(0));
    assert!(limiter.try_consume_at(u128::MAX));
}
