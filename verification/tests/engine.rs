use metaboss::cache::ProgressCache;
use metaboss::outcome::{CacheEntry, Outcome};
use metaboss::retry::{RetryDecision, RetryPolicy};
use metaboss::runner::BatchRun;

fn s(text: &str) -> String {
    text.to_owned()
}

/// Scenario: three targets, the first always fails, the others succeed,
/// two attempts per target, all three in flight at once.
#[test]
fn scenario_one_failing_two_succeeding() {
    let targets = vec![s("A"), s("B"), s("C")];
    let cache = ProgressCache::new();
    let policy = RetryPolicy::new(250, 2, 2);
    let mut run = BatchRun::start(targets, cache, None);

    // dispatch all three targets (concurrency 3)
    let a = run.next_pending().unwrap();
    let b = run.next_pending().unwrap();
    let c = run.next_pending().unwrap();
    assert!(run.next_pending().is_none());
    assert_eq!(run.target_at(a).as_str(), "A");
    assert_eq!(run.target_at(b).as_str(), "B");
    assert_eq!(run.target_at(c).as_str(), "C");

    // target A fails both attempts
    let mut attempts = 1u8;
    loop {
        match policy.after_attempt(attempts, true) {
            RetryDecision::RetryAfter(delay) => {
                assert_eq!(delay, 250);
                attempts += 1;
            }
            RetryDecision::Settle => break,
        }
    }
    assert_eq!(attempts, 2);
    run.settle(a, Outcome::Failure(s("the operation always fails")));

    // targets B and C succeed on their first attempt
    match policy.after_attempt(1, false) {
        RetryDecision::Settle => {}
        RetryDecision::RetryAfter(_) => panic!("a success is never retried"),
    }
    run.settle(b, Outcome::Success(s("sigB")));
    run.settle(c, Outcome::Success(s("sigC")));

    assert!(run.is_complete());
    let report = run.report();
    assert_eq!(report.attempted, 3);
    assert_eq!(report.succeeded, 2);
    assert_eq!(report.failed, 1);
    assert_eq!(report.failures.len(), 1);
    assert_eq!(report.failures[0].0.as_str(), "A");
    assert_eq!(report.failures[0].1.as_str(), "the operation always fails");
    assert_eq!(run.cache().len(), 3);
}

/// Idempotence: a second run over the first run's cache skips every target
/// that succeeded, and attempts nothing for them again.
#[test]
fn second_run_skips_succeeded_targets() {
    let targets = vec![s("A"), s("B"), s("C")];
    let mut run = BatchRun::start(targets.clone(), ProgressCache::new(), None);
    while let Some(i) = run.next_pending() {
        let id = run.target_at(i).clone();
        let outcome = if id == "A" {
            Outcome::Failure(s("boom"))
        } else {
            Outcome::Success(s("sig"))
        };
        run.settle(i, outcome);
    }
    assert!(run.is_complete());

    // reload the cache as a fresh process would
    let records: Vec<CacheEntry> = run.cache().records().iter().cloned().collect();
    let reloaded = ProgressCache::from_records(records);
    let mut second = BatchRun::start(targets, reloaded, None);

    // only the failed target A is pending; B and C are skipped
    let i = second.next_pending().unwrap();
    assert_eq!(second.target_at(i).as_str(), "A");
    assert!(second.next_pending().is_none());
    second.settle(i, Outcome::Success(s("sig2")));
    assert!(second.is_complete());
    let report = second.report();
    assert_eq!(report.attempted, 1);
    assert_eq!(report.succeeded, 1);
    assert_eq!(report.failed, 0);
    assert_eq!(second.cache().len(), 3);
}

/// Crash-resume: outcomes recorded before an interrupt survive; a fresh run
/// attempts only the remaining targets.
#[test]
fn resume_after_partial_run() {
    let targets = vec![s("A"), s("B")];
    let mut run = BatchRun::start(targets.clone(), ProgressCache::new(), None);
    let i = run.next_pending().unwrap();
    run.settle(i, Outcome::Success(s("sigA")));
    // the process dies here with B unsettled; only A's record was persisted
    let records: Vec<CacheEntry> = run.cache().records().iter().cloned().collect();
    assert_eq!(records.len(), 1);

    let mut resumed = BatchRun::start(targets, ProgressCache::from_records(records), None);
    let j = resumed.next_pending().unwrap();
    assert_eq!(resumed.target_at(j).as_str(), "B");
    assert!(resumed.next_pending().is_none());
    resumed.settle(j, Outcome::Success(s("sigB")));
    assert!(resumed.is_complete());
    assert_eq!(resumed.cache().len(), 2);
}

/// Isolation: one failing target among nine succeeding ones yields exactly
/// nine successes and one failure, whatever the settling order.
#[test]
fn one_failure_does_not_affect_others() {
    let targets: Vec<String> = (0..10).map(|k| format!("t{k}")).collect();
    let mut run = BatchRun::start(targets, ProgressCache::new(), None);
    let mut indices = Vec::new();
    while let Some(i) = run.next_pending() {
        indices.push(i);
    }
    // settle in reverse dispatch order; target t3 fails
    for &i in indices.iter().rev() {
        let id = run.target_at(i).clone();
        if id == "t3" {
            run.settle(i, Outcome::Failure(s("boom")));
        } else {
            run.settle(i, Outcome::Success(s("sig")));
        }
    }
    let report = run.report();
    assert_eq!(report.attempted, 10);
    assert_eq!(report.succeeded, 9);
    assert_eq!(report.failed, 1);
    assert_eq!(report.failures[0].0.as_str(), "t3");
    assert_eq!(run.cache().len(), 10);
}

/// Retry bound: a target that always fails is attempted exactly `retries`
/// times, with non-decreasing delays, and its final record is a failure.
#[test]
fn always_failing_target_attempts_exactly_retries() {
    let policy = RetryPolicy::new(250, 2, 3);
    let mut attempts = 1u8;
    let mut delays = Vec::new();
    loop {
        match policy.after_attempt(attempts, true) {
            RetryDecision::RetryAfter(delay) => {
                delays.push(delay);
                attempts += 1;
            }
            RetryDecision::Settle => break,
        }
    }
    assert_eq!(attempts, 3);
    assert_eq!(delays, vec![250, 500]);
    for pair in delays.windows(2) {
        assert!(pair[0] <= pair[1]);
    }

    let mut run = BatchRun::start(vec![s("A")], ProgressCache::new(), None);
    let i = run.next_pending().unwrap();
    run.settle(i, Outcome::Failure(s("still failing")));
    let entry = run.cache().get(&s("A")).unwrap();
    assert!(!entry.outcome.is_success());
}

/// Exponential backoff delays: base * factor^(attempt - 1).
#[test]
fn backoff_delays_grow_by_the_factor() {
    let policy = RetryPolicy::new(100, 3, 5);
    assert_eq!(policy.delay_after_attempt(1), 100);
    assert_eq!(policy.delay_after_attempt(2), 300);
    assert_eq!(policy.delay_after_attempt(3), 900);
    assert_eq!(policy.delay_after_attempt(4), 2700);
    // a huge attempt count saturates instead of overflowing
    let steep = RetryPolicy::new(u64::MAX, 2, 200);
    assert_eq!(steep.delay_after_attempt(150), u64::MAX);
}

/// Last write wins: recording a target twice keeps one record, the later.
#[test]
fn record_replaces_earlier_record() {
    let mut cache = ProgressCache::new();
    cache.record(CacheEntry {
        target: s("A"),
        outcome: Outcome::Failure(s("first")),
        new_value: None,
    });
    cache.record(CacheEntry {
        target: s("A"),
        outcome: Outcome::Success(s("second")),
        new_value: Some(s("fungible")),
    });
    assert_eq!(cache.len(), 1);
    let entry = cache.get(&s("A")).unwrap();
    assert!(entry.outcome.is_success());
    assert_eq!(entry.new_value.as_deref(), Some("fungible"));
    assert!(cache.get(&s("B")).is_none());
}

/// Reloading records replays them in order, a later record winning.
#[test]
fn from_records_keeps_the_last_record_per_target() {
    let records = vec![
        CacheEntry { target: s("A"), outcome: Outcome::Failure(s("old")), new_value: None },
        CacheEntry { target: s("B"), outcome: Outcome::Success(s("sigB")), new_value: None },
        CacheEntry { target: s("A"), outcome: Outcome::Success(s("sigA")), new_value: None },
    ];
    let cache = ProgressCache::from_records(records);
    assert_eq!(cache.len(), 2);
    assert!(cache.get(&s("A")).unwrap().outcome.is_success());
    assert!(cache.is_recorded_success(&s("A")));
    assert!(cache.is_recorded_success(&s("B")));
}

/// A failure record is re-attempted on resume; only successes are skipped.
#[test]
fn failure_records_are_not_skipped() {
    let mut cache = ProgressCache::new();
    cache.record(CacheEntry {
        target: s("A"),
        outcome: Outcome::Failure(s("boom")),
        new_value: None,
    });
    assert!(!cache.is_recorded_success(&s("A")));
    let mut run = BatchRun::start(vec![s("A")], cache, None);
    assert!(run.next_pending().is_some());
}
