use tornado::retry::{BackoffPolicy, RetryPolicy, RetryStrategy};

#[test]
fn retry_policy_should_return_when_to_retry() {
    // NoRetry
    assert!(RetryPolicy::NoRetry.should_retry(0));
    assert!(!RetryPolicy::NoRetry.should_retry(1));
    assert!(!RetryPolicy::NoRetry.should_retry(10));
    assert!(!RetryPolicy::NoRetry.should_retry(100));

    // Max
    assert!(RetryPolicy::MaxRetries { retries: 0 }.should_retry(0));
    assert!(!RetryPolicy::MaxRetries { retries: 0 }.should_retry(1));
    assert!(!RetryPolicy::MaxRetries { retries: 0 }.should_retry(10));
    assert!(!RetryPolicy::MaxRetries { retries: 0 }.should_retry(100));

    assert!(RetryPolicy::MaxRetries { retries: 1 }.should_retry(0));
    assert!(RetryPolicy::MaxRetries { retries: 1 }.should_retry(1));
    assert!(!RetryPolicy::MaxRetries { retries: 1 }.should_retry(2));
    assert!(!RetryPolicy::MaxRetries { retries: 1 }.should_retry(10));
    assert!(!RetryPolicy::MaxRetries { retries: 1 }.should_retry(100));

    assert!(RetryPolicy::MaxRetries { retries: 10 }.should_retry(0));
    assert!(RetryPolicy::MaxRetries { retries: 10 }.should_retry(1));
    assert!(RetryPolicy::MaxRetries { retries: 10 }.should_retry(10));
    assert!(!RetryPolicy::MaxRetries { retries: 10 }.should_retry(11));
    assert!(!RetryPolicy::MaxRetries { retries: 10 }.should_retry(100));

    // Infinite
    assert!(RetryPolicy::Infinite.should_retry(0));
    assert!(RetryPolicy::Infinite.should_retry(1));
    assert!(RetryPolicy::Infinite.should_retry(10));
    assert!(RetryPolicy::Infinite.should_retry(100));
}

#[test]
fn backoff_policy_should_return_the_wait_time() {
    // NoBackoff
    assert_eq!(None, BackoffPolicy::NoBackoff.should_wait(0));
    assert_eq!(None, BackoffPolicy::NoBackoff.should_wait(1));
    assert_eq!(None, BackoffPolicy::NoBackoff.should_wait(10));
    assert_eq!(None, BackoffPolicy::NoBackoff.should_wait(100));

    // Fixed
    assert_eq!(None, BackoffPolicy::Fixed { ms: 100 }.should_wait(0));
    assert_eq!(Some(100), BackoffPolicy::Fixed { ms: 100 }.should_wait(1));
    assert_eq!(Some(100), BackoffPolicy::Fixed { ms: 100 }.should_wait(10));
    assert_eq!(Some(1123), BackoffPolicy::Fixed { ms: 1123 }.should_wait(100));

    assert_eq!(None, BackoffPolicy::Fixed { ms: 0 }.should_wait(0));
    assert_eq!(None, BackoffPolicy::Fixed { ms: 0 }.should_wait(1));
    assert_eq!(None, BackoffPolicy::Fixed { ms: 0 }.should_wait(10));

    // Variable
    assert_eq!(None, BackoffPolicy::Variable { ms: vec![] }.should_wait(0));
    assert_eq!(None, BackoffPolicy::Variable { ms: vec![] }.should_wait(1));
    assert_eq!(None, BackoffPolicy::Variable { ms: vec![] }.should_wait(200));

    assert_eq!(None, BackoffPolicy::Variable { ms: vec![0] }.should_wait(0));
    assert_eq!(None, BackoffPolicy::Variable { ms: vec![0] }.should_wait(1));
    assert_eq!(None, BackoffPolicy::Variable { ms: vec![0] }.should_wait(100));

    assert_eq!(None, BackoffPolicy::Variable { ms: vec![100] }.should_wait(0));
    assert_eq!(Some(100), BackoffPolicy::Variable { ms: vec![100] }.should_wait(1));
    assert_eq!(Some(100), BackoffPolicy::Variable { ms: vec![100] }.should_wait(2));
    assert_eq!(Some(100), BackoffPolicy::Variable { ms: vec![100] }.should_wait(10));
    assert_eq!(Some(100), BackoffPolicy::Variable { ms: vec![100] }.should_wait(100));

    assert_eq!(None, BackoffPolicy::Variable { ms: vec![111, 222, 0, 444] }.should_wait(0));
    assert_eq!(Some(111), BackoffPolicy::Variable { ms: vec![111, 222, 0, 444] }.should_wait(1));
    assert_eq!(Some(222), BackoffPolicy::Variable { ms: vec![111, 222, 0, 444] }.should_wait(2));
    assert_eq!(None, BackoffPolicy::Variable { ms: vec![111, 222, 0, 444] }.should_wait(3));
    assert_eq!(Some(444), BackoffPolicy::Variable { ms: vec![111, 222, 0, 444] }.should_wait(4));
    assert_eq!(Some(444), BackoffPolicy::Variable { ms: vec![111, 222, 0, 444] }.should_wait(5));
    assert_eq!(
        Some(444),
        BackoffPolicy::Variable { ms: vec![111, 222, 0, 444] }.should_wait(100_000)
    );
}

#[test]
fn retry_policy_should_return_whether_to_retry() {
    let retry_strategy = RetryStrategy {
        retry_policy: RetryPolicy::MaxRetries { retries: 1 },
        backoff_policy: BackoffPolicy::Fixed { ms: 34 },
    };
    assert_eq!((true, None), retry_strategy.should_retry(0));
    assert_eq!((true, Some(34)), retry_strategy.should_retry(1));
    assert_eq!((false, Some(34)), retry_strategy.should_retry(2));
}

#[test]
fn default_strategy_attempts_once_without_wait() {
    let strategy = RetryStrategy::default();
    assert_eq!((true, None), strategy.should_retry(0));
    assert_eq!((false, None), strategy.should_retry(1));
}

#[test]
fn fatal_failures_are_never_retried() {
    let strategy = RetryStrategy {
        retry_policy: RetryPolicy::Infinite,
        backoff_policy: BackoffPolicy::Fixed { ms: 10 },
    };
    assert_eq!((false, Some(10)), strategy.next_attempt(false, 1));
    assert_eq!((true, Some(10)), strategy.next_attempt(true, 1));

    let bounded = RetryStrategy {
        retry_policy: RetryPolicy::MaxRetries { retries: 1 },
        backoff_policy: BackoffPolicy::NoBackoff,
    };
    assert_eq!((true, None), bounded.next_attempt(true, 1));
    assert_eq!((false, None), bounded.next_attempt(true, 2));
    assert_eq!((false, None), bounded.next_attempt(false, 1));
}
