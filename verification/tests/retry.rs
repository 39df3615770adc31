use replog::retry::Attempts;
use replog::retry::BACKOFF_FACTOR;
use replog::retry::INIT_BACKOFF_MS;
use replog::retry::MAX_BACKOFF_MS;
use replog::retry::MAX_RETRIES;

#[test]
fn default_budget_matches_knobs() {
    let att = Attempts::default();
    assert_eq!(att.n, MAX_RETRIES);
    assert_eq!(att.backoff_ms, INIT_BACKOFF_MS);
    assert_eq!(att.max_backoff_ms, MAX_BACKOFF_MS);
    assert_eq!(att.factor, BACKOFF_FACTOR);
}

#[test]
fn next_spends_attempts_and_stops() {
    let mut att = Attempts::default();
    for _ in 0..5 {
        assert!(att.next());
    }
    assert!(!att.next());
    assert!(!att.next());
    assert_eq!(att.n, 0);
}

#[test]
fn backoff_grows_within_jitter_bounds() {
    let mut att = Attempts::new(3, 1000, 3_600_000, 2);
    assert!(att.next());
    // doubled plus a jitter below the previous delay
    assert!(att.backoff_ms >= 2000);
    assert!(att.backoff_ms < 3000);
    let prev = att.backoff_ms;
    assert!(att.next());
    assert!(att.backoff_ms >= prev * 2);
    assert!(att.backoff_ms < prev * 3);
}

#[test]
fn backoff_respects_ceiling() {
    let mut att = Attempts::new(10, 4000, 5000, 2);
    assert!(att.next());
    assert_eq!(att.backoff_ms, 5000);
    assert!(att.next());
    assert_eq!(att.backoff_ms, 5000);
}

#[test]
fn delay_is_skipped_on_the_final_iteration() {
    let mut att = Attempts::new(1, 1000, 3_600_000, 2);
    assert!(att.next());
    // the one attempt is spent: no further delay
    assert_eq!(att.delay_ms(), 0);
    let mut att = Attempts::new(2, 1000, 3_600_000, 2);
    assert!(att.next());
    assert_eq!(att.delay_ms(), att.backoff_ms);
}
