use scale_to_zero::consumer::{
    decode_packet_log, is_loopback_address, process_packet, process_packet_at, PacketOutcome,
    PACKET_LOG_SIZE,
};
use scale_to_zero::model::{PacketLog, ServiceData, WorkloadKind};
use scale_to_zero::registry::ServiceRegistry;
use scale_to_zero::scaler::{RateLimiter, ScaleError, ScalePatch};

fn record(last: i64, available: bool) -> ServiceData {
    ServiceData {
        scale_down_time: 60,
        last_packet_time: last,
        kind: WorkloadKind::Deployment,
        name: "foo".to_string(),
        namespace: "default".to_string(),
        backend_available: available,
    }
}

fn state(available: bool) -> (ServiceRegistry, RateLimiter) {
    let mut registry = ServiceRegistry::new();
    registry.upsert_service(0x0A000005, record(1000, available));
    (registry, RateLimiter::new())
}

fn wake(ip: u32) -> PacketLog {
    PacketLog { ipv4_address: ip, action: 1 }
}

fn seen(ip: u32) -> PacketLog {
    PacketLog { ipv4_address: ip, action: 0 }
}

#[test]
fn records_are_read_least_significant_byte_first() {
    assert_eq!(PACKET_LOG_SIZE, 8);
    assert_eq!(
        decode_packet_log(&[0x05, 0x00, 0x00, 0x0A, 0x01, 0, 0, 0]),
        Some(PacketLog { ipv4_address: 0x0A000005, action: 1 })
    );
    assert_eq!(
        decode_packet_log(&[0x78, 0x56, 0x34, 0x12, 0x00, 9, 9, 9, 9, 9]),
        Some(PacketLog { ipv4_address: 0x12345678, action: 0 })
    );
    assert_eq!(
        decode_packet_log(&[0xFF; 8]),
        Some(PacketLog { ipv4_address: u32::MAX, action: 255 })
    );
}

#[test]
fn short_records_hold_no_event() {
    for len in 0..8 {
        assert_eq!(decode_packet_log(&vec![1u8; len]), None);
    }
}

#[test]
fn loopback_is_the_127_block() {
    assert!(is_loopback_address(0x7F000001));
    assert!(is_loopback_address(0x7F000000));
    assert!(is_loopback_address(0x7FFFFFFF));
    assert!(!is_loopback_address(0x7EFFFFFF));
    assert!(!is_loopback_address(0x80000000));
    assert!(!is_loopback_address(0));
    assert!(!is_loopback_address(u32::MAX));
    assert!(!is_loopback_address(0x0A00007F));
}

#[test]
fn liveness_event_refreshes_the_time() {
    let (mut registry, mut limiter) = state(true);
    let outcome = process_packet_at(seen(0x0A000005), &mut registry, &mut limiter, 2000);
    assert_eq!(outcome, PacketOutcome::Observed);
    assert_eq!(registry.get(0x0A000005), Some(record(2000, true)));
    assert_eq!(limiter.last(0x0A000005), None);
}

#[test]
fn wake_event_refreshes_the_time_and_scales_up() {
    let (mut registry, mut limiter) = state(false);
    let outcome = process_packet_at(wake(0x0A000005), &mut registry, &mut limiter, 2000);
    assert_eq!(
        outcome,
        PacketOutcome::ScaleUp(ScalePatch {
            kind: WorkloadKind::Deployment,
            name: "foo".to_string(),
            replicas: 1
        })
    );
    assert_eq!(registry.get(0x0A000005), Some(record(2000, true)));
    assert_eq!(limiter.last(0x0A000005), Some(2000));
}

#[test]
fn second_wake_within_the_window_is_refused_but_counted() {
    let (mut registry, mut limiter) = state(false);
    process_packet_at(wake(0x0A000005), &mut registry, &mut limiter, 2000);
    registry.mark_scaled_down(0x0A000005);
    let outcome = process_packet_at(wake(0x0A000005), &mut registry, &mut limiter, 2003);
    assert_eq!(outcome, PacketOutcome::Refused(ScaleError::RateLimited));
    assert_eq!(registry.get(0x0A000005), Some(record(2003, false)));
    assert_eq!(limiter.last(0x0A000005), Some(2000));
    let outcome = process_packet_at(wake(0x0A000005), &mut registry, &mut limiter, 2005);
    assert!(matches!(outcome, PacketOutcome::ScaleUp(_)));
}

#[test]
fn wake_while_the_clock_is_behind() {
    let (mut registry, mut limiter) = state(false);
    process_packet_at(wake(0x0A000005), &mut registry, &mut limiter, 2000);
    let outcome = process_packet_at(wake(0x0A000005), &mut registry, &mut limiter, 1500);
    assert_eq!(outcome, PacketOutcome::Refused(ScaleError::RateLimited));
    assert_eq!(registry.get(0x0A000005).unwrap().last_packet_time, 1500);
}

#[test]
fn events_for_unknown_addresses_are_ignored() {
    let (mut registry, mut limiter) = state(false);
    for event in [wake(0x0A000006), seen(0x0A000006)] {
        assert_eq!(
            process_packet_at(event, &mut registry, &mut limiter, 2000),
            PacketOutcome::Ignored
        );
    }
    assert_eq!(registry.get(0x0A000005), Some(record(1000, false)));
    assert_eq!(registry.len(), 1);
    assert_eq!(limiter.last(0x0A000006), None);
}

#[test]
fn loopback_events_are_ignored_even_if_managed() {
    let mut registry = ServiceRegistry::new();
    registry.upsert_service(0x7F000001, record(1000, false));
    let mut limiter = RateLimiter::new();
    for event in [wake(0x7F000001), seen(0x7F000001)] {
        assert_eq!(
            process_packet_at(event, &mut registry, &mut limiter, 2000),
            PacketOutcome::Ignored
        );
    }
    assert_eq!(registry.get(0x7F000001), Some(record(1000, false)));
    assert_eq!(limiter.last(0x7F000001), None);
}

#[test]
fn other_actions_count_as_liveness() {
    let (mut registry, mut limiter) = state(false);
    for action in [0u8, 2, 255] {
        let event = PacketLog { ipv4_address: 0x0A000005, action };
        assert_eq!(
            process_packet_at(event, &mut registry, &mut limiter, 2000),
            PacketOutcome::Observed
        );
    }
    assert!(!registry.get(0x0A000005).unwrap().backend_available);
}

#[test]
fn events_by_the_wall_clock() {
    let (mut registry, mut limiter) = state(false);
    let outcome = process_packet(wake(0x0A000005), &mut registry, &mut limiter);
    assert!(matches!(outcome, PacketOutcome::ScaleUp(_)));
    let record = registry.get(0x0A000005).unwrap();
    assert!(record.last_packet_time > 1_600_000_000);
    assert!(record.backend_available);
    assert_eq!(limiter.last(0x0A000005), Some(record.last_packet_time));
    assert_eq!(process_packet(seen(9), &mut registry, &mut limiter), PacketOutcome::Ignored);
    assert_eq!(process_packet(seen(0x0A000005), &mut registry, &mut limiter), PacketOutcome::Observed);
    assert!(registry.get(0x0A000005).unwrap().last_packet_time >= record.last_packet_time);
}
