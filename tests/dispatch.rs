use quake_alert::dispatch::{
    classify_status, is_permanent_failure, select_recipients, Delivery, DispatchSummary, DispatchUnit,
    RetryPolicy, UnitStep,
};
use quake_alert::models::Subscription;
use quake_alert::store::{StoreError, SubscriptionStore};

fn sub(id: &str, lat: i64, lon: i64, min: u8) -> Subscription {
    Subscription::new(id.to_string(), lat, lon, min, 0)
}

#[test]
fn no_candidates_no_recipients() {
    let r = select_recipients(&[], &[]);
    assert!(r.is_empty());
}

#[test]
fn threshold_filter_scenario() {
    // Epicenter (35.0, 139.0), M7.0, depth 10 km: the estimate is 7 at the
    // epicenter and 3 about 500 km east of it.
    let candidates = vec![sub("here", 350_000_000, 1_390_000_000, 3), sub("far", 350_000_000, 1_445_000_000, 6)];
    let estimates = vec![7u8, 3u8];
    assert_eq!(select_recipients(&candidates, &estimates), vec![0]);
}

#[test]
fn threshold_is_inclusive() {
    let candidates = vec![sub("a", 0, 0, 4), sub("b", 0, 0, 5), sub("c", 0, 0, 0)];
    assert_eq!(select_recipients(&candidates, &[4, 4, 0]), vec![0, 2]);
}

#[test]
fn status_classification() {
    assert_eq!(classify_status(200), Delivery::Delivered);
    assert_eq!(classify_status(204), Delivery::Delivered);
    assert_eq!(classify_status(404), Delivery::Rejected(404));
    assert!(is_permanent_failure(Delivery::Rejected(400)));
    assert!(is_permanent_failure(Delivery::Rejected(404)));
    assert!(is_permanent_failure(Delivery::Rejected(500)));
    assert!(!is_permanent_failure(Delivery::Rejected(503)));
    assert!(!is_permanent_failure(Delivery::Unreachable));
    assert!(!is_permanent_failure(Delivery::Delivered));
    let p = RetryPolicy::standard();
    assert!(p.is_retryable(Delivery::Rejected(503)));
    assert!(p.is_retryable(Delivery::Unreachable));
    assert!(!p.is_retryable(Delivery::Rejected(404)));
    assert!(!p.is_retryable(Delivery::Delivered));
}

#[test]
fn transient_twice_then_success() {
    let mut unit = DispatchUnit::new(RetryPolicy::default());
    let outcomes = [Delivery::Rejected(503), Delivery::Unreachable, Delivery::Delivered];
    let mut sends = 0;
    let mut steps = Vec::new();
    for outcome in outcomes {
        sends += 1;
        let step = unit.on_outcome(outcome);
        steps.push(step);
        if !matches!(step, UnitStep::RetryAfter(_)) {
            break;
        }
    }
    assert_eq!(sends, 3);
    assert_eq!(steps, vec![UnitStep::RetryAfter(100), UnitStep::RetryAfter(200), UnitStep::Succeeded]);
}

#[test]
fn transient_failures_exhaust_retries() {
    let mut unit = DispatchUnit::new(RetryPolicy::standard());
    assert_eq!(unit.on_outcome(Delivery::Unreachable), UnitStep::RetryAfter(100));
    assert_eq!(unit.on_outcome(Delivery::Unreachable), UnitStep::RetryAfter(200));
    assert_eq!(unit.on_outcome(Delivery::Unreachable), UnitStep::Failed);
}

#[test]
fn permanent_failure_prunes_subscription() {
    let mut store = SubscriptionStore::new();
    store.upsert_subscription(sub("gone", 350_000_000, 1_390_000_000, 3));
    let mut unit = DispatchUnit::new(RetryPolicy::standard());
    let step = unit.on_outcome(classify_status(404));
    assert_eq!(step, UnitStep::PruneAndFail);
    assert_eq!(store.delete_subscription("gone"), Ok(()));
    assert_eq!(store.get_subscription("gone").unwrap_err(), StoreError::NotFound);
}

#[test]
fn custom_policy_backoff() {
    let p = RetryPolicy::new(3, 250);
    assert_eq!(p.backoff_ms(3), 750);
    assert_eq!(p.next_step(2, Delivery::Unreachable), UnitStep::RetryAfter(750));
    assert_eq!(p.next_step(3, Delivery::Unreachable), UnitStep::Failed);
}

#[test]
fn summary_counts() {
    let mut s = DispatchSummary::new(5, 2);
    s.record(true);
    s.record(false);
    s.record(true);
    assert_eq!((s.candidates, s.dispatched, s.succeeded, s.failed), (5, 2, 1, 1));
}
