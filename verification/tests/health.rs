use replog::health::HealthChecker;
use replog::health::HealthService;
use replog::health::HealthStatus;

#[test]
fn one_suspected_per_contiguous_failure_run() {
    let mut hc = HealthChecker::new(3);
    let d = hc.on_probe(false);
    assert!(matches!(d.emit, Some(HealthStatus::Suspected)));
    assert!(!d.terminate);
    let d = hc.on_probe(false);
    assert!(d.emit.is_none());
    let d = hc.on_probe(false);
    assert!(d.emit.is_none());
    // budget exhausted: exactly one failure signal, then the prober stops
    let d = hc.on_probe(false);
    assert!(matches!(d.emit, Some(HealthStatus::Failed)));
    assert!(d.widen_interval);
    assert!(d.terminate);
}

#[test]
fn recovery_resets_budget_and_signals_once() {
    let mut hc = HealthChecker::new(2);
    let d = hc.on_probe(false);
    assert!(matches!(d.emit, Some(HealthStatus::Suspected)));
    let d = hc.on_probe(true);
    assert!(matches!(d.emit, Some(HealthStatus::Healthy)));
    assert_eq!(hc.budget, 2);
    // healthy again: silence
    let d = hc.on_probe(true);
    assert!(d.emit.is_none());
    // a fresh failure run raises a fresh suspicion
    let d = hc.on_probe(false);
    assert!(matches!(d.emit, Some(HealthStatus::Suspected)));
}

#[test]
fn zero_budget_fails_at_once() {
    let mut hc = HealthChecker::new(0);
    let d = hc.on_probe(false);
    assert!(matches!(d.emit, Some(HealthStatus::Failed)));
    assert!(d.terminate);
}

#[test]
fn liveness_endpoint_always_serves() {
    let svc = HealthService;
    assert!(svc.check());
}
