use scale_to_zero::model::{ServiceData, WorkloadKind};
use scale_to_zero::registry::ServiceRegistry;
use scale_to_zero::scaler::{
    scale_down, scale_down_at, scale_up, scale_up_at, RateLimiter, ScaleDown, ScaleError,
    ScalePatch, RATE_LIMIT_WINDOW_SECS, SCALE_DOWN_INTERVAL_SECS,
};

fn record(kind: WorkloadKind, name: &str, window: i64, last: i64, available: bool) -> ServiceData {
    ServiceData {
        scale_down_time: window,
        last_packet_time: last,
        kind,
        name: name.to_string(),
        namespace: "default".to_string(),
        backend_available: available,
    }
}

fn one_service(available: bool) -> ServiceRegistry {
    let mut registry = ServiceRegistry::new();
    registry.upsert_service(
        0x0A000005,
        record(WorkloadKind::Deployment, "foo", 60, 1000, available),
    );
    registry
}

#[test]
fn the_window_is_five_seconds() {
    assert_eq!(RATE_LIMIT_WINDOW_SECS, 5);
    assert_eq!(SCALE_DOWN_INTERVAL_SECS, 1);
}

#[test]
fn limiter_lets_the_first_request_through() {
    let mut limiter = RateLimiter::new();
    assert_eq!(limiter.last(1), None);
    assert_eq!(limiter.try_acquire(1, 1000), Ok(()));
    assert_eq!(limiter.last(1), Some(1000));
}

#[test]
fn limiter_refuses_within_the_window() {
    let mut limiter = RateLimiter::new();
    limiter.try_acquire(1, 1000).unwrap();
    for now in [1000, 1001, 1004] {
        assert_eq!(limiter.try_acquire(1, now), Err(ScaleError::RateLimited));
        assert_eq!(limiter.last(1), Some(1000));
    }
    assert_eq!(limiter.try_acquire(1, 1005), Ok(()));
    assert_eq!(limiter.last(1), Some(1005));
    assert_eq!(limiter.try_acquire(1, 1009), Err(ScaleError::RateLimited));
    assert_eq!(limiter.try_acquire(1, 1010), Ok(()));
}

#[test]
fn limiter_keeps_addresses_apart() {
    let mut limiter = RateLimiter::new();
    limiter.try_acquire(1, 1000).unwrap();
    assert_eq!(limiter.try_acquire(2, 1001), Ok(()));
    assert_eq!(limiter.last(1), Some(1000));
    assert_eq!(limiter.last(2), Some(1001));
}

#[test]
fn limiter_refuses_while_the_clock_is_behind() {
    let mut limiter = RateLimiter::new();
    limiter.try_acquire(1, 1000).unwrap();
    assert_eq!(limiter.try_acquire(1, 999), Err(ScaleError::RateLimited));
    assert_eq!(limiter.try_acquire(1, i64::MIN), Err(ScaleError::RateLimited));
    assert_eq!(limiter.last(1), Some(1000));
}

#[test]
fn limiter_at_the_ends_of_the_clock() {
    let mut limiter = RateLimiter::new();
    limiter.try_acquire(1, i64::MIN).unwrap();
    assert_eq!(limiter.try_acquire(1, i64::MAX), Ok(()));
    assert_eq!(limiter.try_acquire(1, i64::MAX), Err(ScaleError::RateLimited));
}

#[test]
fn only_the_limiter_refusal_is_rate_limited() {
    assert!(ScaleError::RateLimited.is_rate_limited());
    assert!(!ScaleError::UnknownService.is_rate_limited());
}

#[test]
fn scale_up_patches_to_one_replica_and_marks_available() {
    let mut registry = one_service(false);
    let mut limiter = RateLimiter::new();
    let patch = scale_up_at(&mut registry, &mut limiter, 0x0A000005, 2000);
    assert_eq!(
        patch,
        Ok(ScalePatch { kind: WorkloadKind::Deployment, name: "foo".to_string(), replicas: 1 })
    );
    assert_eq!(
        registry.get(0x0A000005),
        Some(record(WorkloadKind::Deployment, "foo", 60, 1000, true))
    );
    assert_eq!(limiter.last(0x0A000005), Some(2000));
}

#[test]
fn scale_up_of_a_stateful_set() {
    let mut registry = ServiceRegistry::new();
    registry.upsert_service(7, record(WorkloadKind::StatefulSet, "db", 60, 0, false));
    let mut limiter = RateLimiter::new();
    assert_eq!(
        scale_up_at(&mut registry, &mut limiter, 7, 10),
        Ok(ScalePatch { kind: WorkloadKind::StatefulSet, name: "db".to_string(), replicas: 1 })
    );
}

#[test]
fn second_scale_up_within_five_seconds_is_refused() {
    let mut registry = one_service(false);
    let mut limiter = RateLimiter::new();
    assert!(scale_up_at(&mut registry, &mut limiter, 0x0A000005, 2000).is_ok());
    registry.mark_scaled_down(0x0A000005);
    for now in 2000..2005 {
        assert_eq!(
            scale_up_at(&mut registry, &mut limiter, 0x0A000005, now),
            Err(ScaleError::RateLimited)
        );
        assert!(!registry.get(0x0A000005).unwrap().backend_available);
        assert_eq!(limiter.last(0x0A000005), Some(2000));
    }
    assert!(scale_up_at(&mut registry, &mut limiter, 0x0A000005, 2005).is_ok());
    assert!(registry.get(0x0A000005).unwrap().backend_available);
}

#[test]
fn at_most_one_patch_in_any_five_seconds() {
    let mut registry = one_service(false);
    let mut limiter = RateLimiter::new();
    let mut issued: Vec<i64> = Vec::new();
    for now in 0..100 {
        if scale_up_at(&mut registry, &mut limiter, 0x0A000005, now).is_ok() {
            issued.push(now);
        }
    }
    assert_eq!(issued.len(), 20);
    for pair in issued.windows(2) {
        assert!(pair[1] - pair[0] >= 5);
    }
}

#[test]
fn scale_up_of_an_unknown_service() {
    let mut registry = one_service(false);
    let mut limiter = RateLimiter::new();
    assert_eq!(
        scale_up_at(&mut registry, &mut limiter, 9, 2000),
        Err(ScaleError::UnknownService)
    );
    assert_eq!(limiter.last(9), Some(2000));
    assert_eq!(
        registry.get(0x0A000005),
        Some(record(WorkloadKind::Deployment, "foo", 60, 1000, false))
    );
    assert_eq!(scale_up_at(&mut registry, &mut limiter, 9, 2001), Err(ScaleError::RateLimited));
}

#[test]
fn scale_up_while_the_clock_is_behind() {
    let mut registry = one_service(false);
    let mut limiter = RateLimiter::new();
    scale_up_at(&mut registry, &mut limiter, 0x0A000005, 2000).unwrap();
    registry.mark_scaled_down(0x0A000005);
    assert_eq!(
        scale_up_at(&mut registry, &mut limiter, 0x0A000005, 1990),
        Err(ScaleError::RateLimited)
    );
    assert!(!registry.get(0x0A000005).unwrap().backend_available);
    assert_eq!(limiter.last(0x0A000005), Some(2000));
}

#[test]
fn scale_up_by_the_wall_clock() {
    let mut registry = one_service(false);
    let mut limiter = RateLimiter::new();
    let patch = scale_up(&mut registry, &mut limiter, 0x0A000005);
    assert_eq!(
        patch,
        Ok(ScalePatch { kind: WorkloadKind::Deployment, name: "foo".to_string(), replicas: 1 })
    );
    assert!(registry.get(0x0A000005).unwrap().backend_available);
    let at = limiter.last(0x0A000005).unwrap();
    assert!(at > 1_600_000_000);
    let again = scale_up(&mut registry, &mut limiter, 0x0A000005);
    assert!(again.is_err());
    assert_eq!(scale_up(&mut registry, &mut limiter, 77).ok(), None);
}

#[test]
fn idle_service_is_due() {
    let mut registry = ServiceRegistry::new();
    registry.upsert_service(0x0A000005, record(WorkloadKind::Deployment, "foo", 3, 990, true));
    let downs = scale_down_at(&registry, 1000);
    assert_eq!(
        downs,
        vec![ScaleDown {
            ip: 0x0A000005,
            patch: ScalePatch {
                kind: WorkloadKind::Deployment,
                name: "foo".to_string(),
                replicas: 0
            }
        }]
    );
    assert!(registry.get(0x0A000005).unwrap().backend_available);
}

#[test]
fn only_idle_and_available_services_are_due() {
    let mut registry = ServiceRegistry::new();
    registry.upsert_service(1, record(WorkloadKind::Deployment, "busy", 60, 990, true));
    registry.upsert_service(2, record(WorkloadKind::StatefulSet, "idle", 5, 990, true));
    registry.upsert_service(3, record(WorkloadKind::Deployment, "down", 5, 990, false));
    registry.upsert_service(4, record(WorkloadKind::Deployment, "edge", 10, 990, true));
    registry.upsert_service(5, record(WorkloadKind::Deployment, "over", 9, 990, true));
    let downs = scale_down_at(&registry, 1000);
    let ips: Vec<u32> = downs.iter().map(|d| d.ip).collect();
    assert_eq!(ips, vec![2, 5]);
    assert_eq!(
        downs[0].patch,
        ScalePatch { kind: WorkloadKind::StatefulSet, name: "idle".to_string(), replicas: 0 }
    );
    assert_eq!(downs[1].patch.replicas, 0);
    assert_eq!(scale_down_at(&registry, 990), vec![]);
}

#[test]
fn marked_service_is_no_longer_due() {
    let mut registry = ServiceRegistry::new();
    registry.upsert_service(1, record(WorkloadKind::Deployment, "foo", 3, 990, true));
    assert_eq!(scale_down_at(&registry, 1000).len(), 1);
    registry.mark_scaled_down(1);
    assert_eq!(scale_down_at(&registry, 1000), vec![]);
    assert_eq!(scale_down_at(&registry, 5000), vec![]);
}

#[test]
fn scale_down_by_the_wall_clock() {
    let mut registry = ServiceRegistry::new();
    registry.upsert_service(1, record(WorkloadKind::Deployment, "old", 3, 0, true));
    registry.upsert_service(2, record(WorkloadKind::Deployment, "new", 3, i64::MAX, true));
    registry.upsert_service(3, record(WorkloadKind::Deployment, "down", 3, 0, false));
    let downs = scale_down(&registry);
    let ips: Vec<u32> = downs.iter().map(|d| d.ip).collect();
    assert_eq!(ips, vec![1]);
}
