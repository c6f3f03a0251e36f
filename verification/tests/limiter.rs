use metaboss::limiter::{Admission, RateLimiter};

/// Within one window only `limit` operations are admitted; the next caller
/// is told when to come back, and is admitted then.
#[test]
fn admits_at_most_limit_per_window() {
    let mut limiter = RateLimiter::new(2, 1000);
    assert!(matches!(limiter.try_acquire(0), Admission::Admit));
    assert!(matches!(limiter.try_acquire(10), Admission::Admit));
    match limiter.try_acquire(20) {
        Admission::Admit => panic!("a third admission within the window"),
        Admission::WaitUntil(t) => {
            // the oldest admission (at 0) leaves the window at 1000
            assert_eq!(t, 1000);
            assert!(matches!(limiter.try_acquire(t), Admission::Admit));
        }
    }
}

/// The wait is never more than one window long.
#[test]
fn wait_is_bounded_by_the_window() {
    let mut limiter = RateLimiter::new(1, 500);
    assert!(matches!(limiter.try_acquire(100), Admission::Admit));
    match limiter.try_acquire(101) {
        Admission::Admit => panic!("the window still holds an admission"),
        Admission::WaitUntil(t) => {
            assert!(t > 101);
            assert!(t <= 101 + 500);
        }
    }
}

/// Old admissions leave the window; capacity comes back as time passes.
#[test]
fn capacity_returns_after_the_window_passes() {
    let mut limiter = RateLimiter::new(1, 100);
    assert!(matches!(limiter.try_acquire(0), Admission::Admit));
    assert!(matches!(limiter.try_acquire(50), Admission::WaitUntil(_)));
    assert!(matches!(limiter.try_acquire(101), Admission::Admit));
    assert!(matches!(limiter.try_acquire(300), Admission::Admit));
}
