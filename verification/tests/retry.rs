use scrape_blogger::log::LogRecord;
use scrape_blogger::retry::{RetryExecutor, Verdict, MAX_RETRIES, RETRY_DELAY_SECS};

/// Works on one address with a fetcher that fails `failures` times and then
/// succeeds. Returns whether the work succeeded, the attempts made and the
/// warnings written.
fn work(failures: u32) -> (bool, u32, Vec<LogRecord>) {
    let mut executor = RetryExecutor::new();
    let mut warnings = Vec::new();
    let mut calls = 0;
    loop {
        calls += 1;
        assert!(calls <= 100, "the executor does not stop");
        if calls > failures {
            return (true, calls, warnings);
        }
        match executor.record_failure("addr") {
            Verdict::GiveUp => return (false, calls, warnings),
            Verdict::Retry { warning, delay_secs } => {
                assert_eq!(delay_secs, RETRY_DELAY_SECS);
                warnings.push(warning);
            }
        }
    }
}

#[test]
fn retry_limits() {
    assert_eq!(MAX_RETRIES, 4);
    assert_eq!(RETRY_DELAY_SECS, 1);
}

#[test]
fn success_at_once_writes_no_warning() {
    let (succeeded, attempts, warnings) = work(0);
    assert!(succeeded);
    assert_eq!(attempts, 1);
    assert!(warnings.is_empty());
}

#[test]
fn fewer_failures_than_the_limit_succeed() {
    for failures in 0..MAX_RETRIES {
        let (succeeded, attempts, warnings) = work(failures);
        assert!(succeeded, "{failures} failures");
        assert_eq!(attempts, failures + 1);
        assert_eq!(warnings.len() as u32, failures.min(MAX_RETRIES));
    }
}

#[test]
fn three_failures_then_success() {
    let (succeeded, attempts, warnings) = work(3);
    assert!(succeeded);
    assert_eq!(attempts, 4);
    assert_eq!(
        warnings,
        vec![
            LogRecord::Warn { address: "addr".to_string(), attempt: 1, limit: 4 },
            LogRecord::Warn { address: "addr".to_string(), attempt: 2, limit: 4 },
            LogRecord::Warn { address: "addr".to_string(), attempt: 3, limit: 4 },
        ]
    );
}

#[test]
fn as_many_failures_as_the_limit_give_up() {
    let (succeeded, attempts, warnings) = work(MAX_RETRIES);
    assert!(!succeeded);
    assert_eq!(attempts, MAX_RETRIES);
    assert_eq!(warnings.len() as u32, MAX_RETRIES - 1);
}

#[test]
fn more_failures_than_the_limit_give_up_at_the_limit() {
    for failures in [5, 6, 50] {
        let (succeeded, attempts, warnings) = work(failures);
        assert!(!succeeded);
        assert_eq!(attempts, MAX_RETRIES);
        assert_eq!(warnings.len() as u32, MAX_RETRIES - 1);
    }
}

#[test]
fn executor_counts_failures_up_to_the_limit() {
    let mut executor = RetryExecutor::new();
    assert_eq!(executor.attempts(), 0);
    for expected in 1..=3 {
        assert!(matches!(executor.record_failure("a"), Verdict::Retry { .. }));
        assert_eq!(executor.attempts(), expected);
    }
    assert_eq!(executor.record_failure("a"), Verdict::GiveUp);
    assert_eq!(executor.attempts(), 4);
    assert_eq!(executor.record_failure("a"), Verdict::GiveUp);
    assert_eq!(executor.attempts(), 4);
}
