//! Consuming the classifier's events: every event refreshes the time of
//! the last packet, and a drop asks for a scale-up.

use crate::clock::unix_timestamp;
use crate::model::{PacketLog, ServiceDataView, ACTION_WAKE};
use crate::registry::{touched, ServiceRegistry};
use crate::scaler::{
    scale_up_at,
    scale_up_step,
    RateLimiter,
    ScaleError,
    ScalePatch,
    ScalePatchView,
};
use vstd::prelude::*;

verus! {

/// Size in bytes of an event record on the ring: the address, the
/// action, and padding to a multiple of four.
pub const PACKET_LOG_SIZE: usize = 8;

/// The 32-bit number that four bytes spell, least significant first.
pub open spec fn le32(b: Seq<u8>, at: int) -> int {
    b[at] + b[at + 1] * 256 + b[at + 2] * 65536 + b[at + 3] * 16777216
}

/// The event that a record of the ring holds: the address in the first
/// four bytes, least significant first, and the action in the fifth.
pub open spec fn packet_log_value(record: Seq<u8>) -> Option<PacketLog> {
    if record.len() >= PACKET_LOG_SIZE {
        Some(PacketLog { ipv4_address: le32(record, 0) as u32, action: record[4] })
    } else {
        None
    }
}

/// Reads one event from a record of the ring; a record that is too
/// short holds none.
pub fn decode_packet_log(record: &[u8]) -> (event: Option<PacketLog>)
    ensures
        event == packet_log_value(record@),
{
    if record.len() < PACKET_LOG_SIZE {
        return None;
    }
    let b0: u32 = record[0] as u32;
    let b1: u32 = record[1] as u32;
    let b2: u32 = record[2] as u32;
    let b3: u32 = record[3] as u32;
    Some(
        PacketLog { ipv4_address: b0 + b1 * 256 + b2 * 65536 + b3 * 16777216, action: record[4] },
    )
}

/// Whether an address lies in 127.0.0.0/8.
pub open spec fn is_loopback(ip: u32) -> bool {
    ip / 16777216 == 127
}

pub fn is_loopback_address(ip: u32) -> (b: bool)
    ensures
        b == is_loopback(ip),
{
    ip / 16777216 == 127
}

/// What became of an event.
#[derive(Clone, Debug, PartialEq, Eq)]
pub enum PacketOutcome {
    /// The address is a loopback address or no record is kept for it.
    Ignored,
    /// The time of the last packet was refreshed; nothing more was asked.
    Observed,
    /// The time was refreshed and this patch is to be submitted.
    ScaleUp(ScalePatch),
    /// The time was refreshed and the scale-up was not issued.
    Refused(ScaleError),
}

/// A `PacketOutcome` by content.
pub enum PacketOutcomeView {
    Ignored,
    Observed,
    ScaleUp(ScalePatchView),
    Refused(ScaleError),
}

impl View for PacketOutcome {
    type V = PacketOutcomeView;

    open spec fn view(&self) -> PacketOutcomeView {
        match self {
            PacketOutcome::Ignored => PacketOutcomeView::Ignored,
            PacketOutcome::Observed => PacketOutcomeView::Observed,
            PacketOutcome::ScaleUp(patch) => PacketOutcomeView::ScaleUp(patch@),
            PacketOutcome::Refused(e) => PacketOutcomeView::Refused(*e),
        }
    }
}

/// The state after an event, and what became of the event.
pub struct PacketStep {
    pub services: Map<u32, ServiceDataView>,
    pub limits: Map<u32, i64>,
    pub outcome: PacketOutcomeView,
}

/// An event handled at `now`. Loopback addresses and addresses without a
/// record are ignored. Otherwise the record's time of the last packet
/// becomes `now`, and a wake event asks for a scale-up.
pub open spec fn packet_step(
    services: Map<u32, ServiceDataView>,
    limits: Map<u32, i64>,
    packet_log: PacketLog,
    now: i64,
) -> PacketStep {
    let ip = packet_log.ipv4_address;
    if is_loopback(ip) || !services.contains_key(ip) {
        PacketStep { services, limits, outcome: PacketOutcomeView::Ignored }
    } else if packet_log.action != ACTION_WAKE {
        PacketStep {
            services: touched(services, ip, now),
            limits,
            outcome: PacketOutcomeView::Observed,
        }
    } else {
        let up = scale_up_step(touched(services, ip, now), limits, ip, now);
        PacketStep {
            services: up.services,
            limits: up.limits,
            outcome: match up.answer {
                Ok(patch) => PacketOutcomeView::ScaleUp(patch),
                Err(e) => PacketOutcomeView::Refused(e),
            },
        }
    }
}

/// Handles one event of the ring at `now`.
pub fn process_packet_at(
    packet_log: PacketLog,
    registry: &mut ServiceRegistry,
    limiter: &mut RateLimiter,
    now: i64,
) -> (outcome: PacketOutcome)
    requires
        old(registry).wf(),
        old(limiter).wf(),
    ensures
        final(registry).wf(),
        final(limiter).wf(),
        final(registry).key_seq() == old(registry).key_seq(),
        packet_step(old(registry)@, old(limiter)@, packet_log, now) == (PacketStep {
            services: final(registry)@,
            limits: final(limiter)@,
            outcome: outcome@,
        }),
{
    let ip = packet_log.ipv4_address;
    if is_loopback_address(ip) {
        return PacketOutcome::Ignored;
    }
    if !registry.touch(ip, now) {
        return PacketOutcome::Ignored;
    }
    if packet_log.action != ACTION_WAKE {
        return PacketOutcome::Observed;
    }
    match scale_up_at(registry, limiter, ip, now) {
        Ok(patch) => PacketOutcome::ScaleUp(patch),
        Err(e) => PacketOutcome::Refused(e),
    }
}

/// Handles one event of the ring by the wall clock: `process_packet_at`
/// at the time read.
pub fn process_packet(
    packet_log: PacketLog,
    registry: &mut ServiceRegistry,
    limiter: &mut RateLimiter,
) -> (outcome: PacketOutcome)
    requires
        old(registry).wf(),
        old(limiter).wf(),
    ensures
        final(registry).wf(),
        final(limiter).wf(),
        final(registry).key_seq() == old(registry).key_seq(),
        exists|now: i64| #[trigger]
            packet_step(old(registry)@, old(limiter)@, packet_log, now) == (PacketStep {
                services: final(registry)@,
                limits: final(limiter)@,
                outcome: outcome@,
            }),
{
    let now = unix_timestamp();
    process_packet_at(packet_log, registry, limiter, now)
}

} // verus!
