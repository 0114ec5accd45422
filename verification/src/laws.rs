//! Laws that relate several operations of the control plane.

use crate::consumer::packet_step;
use crate::model::{PacketLog, ServiceDataView, ACTION_WAKE};
use crate::registry::{desired_table, set_available, touched};
use crate::scaler::{permits, scale_up_step, RATE_LIMIT_WINDOW_SECS};
use crate::sync::{fill, synced};
use vstd::prelude::*;

verus! {

/// Every record of `before` is still kept in `after`, with a time of the
/// last packet that is no earlier.
pub open spec fn never_earlier(before: Map<u32, ServiceDataView>, after: Map<u32, ServiceDataView>) -> bool {
    forall|ip: u32| #[trigger]
        before.contains_key(ip) ==> after.contains_key(ip) && after[ip].last_packet_time
            >= before[ip].last_packet_time
}

/// Whether `now` is no earlier than the time of the last packet of `ip`,
/// if a record is kept for it.
pub open spec fn clock_not_behind(services: Map<u32, ServiceDataView>, ip: u32, now: i64) -> bool {
    services.contains_key(ip) ==> services[ip].last_packet_time <= now
}

/// After a scale-up of `ip` was issued at `first`, no request for `ip`
/// that comes less than the window later is answered with a patch,
/// whatever has become of the registry in between; the request changes
/// neither the registry nor the limiter.
pub proof fn law_one_scale_up_per_window(
    services: Map<u32, ServiceDataView>,
    limits: Map<u32, i64>,
    ip: u32,
    first: i64,
    later_services: Map<u32, ServiceDataView>,
    later: i64,
)
    requires
        scale_up_step(services, limits, ip, first).answer is Ok,
        later - first < RATE_LIMIT_WINDOW_SECS,
    ensures
        scale_up_step(services, limits, ip, first).limits.contains_key(ip),
        scale_up_step(services, limits, ip, first).limits[ip] == first,
        scale_up_step(
            later_services,
            scale_up_step(services, limits, ip, first).limits,
            ip,
            later,
        ).answer is Err,
        scale_up_step(
            later_services,
            scale_up_step(services, limits, ip, first).limits,
            ip,
            later,
        ).limits == scale_up_step(services, limits, ip, first).limits,
        scale_up_step(
            later_services,
            scale_up_step(services, limits, ip, first).limits,
            ip,
            later,
        ).services == later_services,
{
}

/// A scale-up request for one address leaves the limiter's entry of
/// every other address as it was.
pub proof fn law_scale_up_touches_one_limit(
    services: Map<u32, ServiceDataView>,
    limits: Map<u32, i64>,
    ip: u32,
    now: i64,
    other: u32,
)
    requires
        other != ip,
    ensures
        scale_up_step(services, limits, ip, now).limits.contains_key(other) == limits.contains_key(
            other,
        ),
        limits.contains_key(other) ==> scale_up_step(services, limits, ip, now).limits[other]
            == limits[other],
{
}

/// An event leads to a patch only if it is a wake event for a managed
/// address that is no loopback address, and the limiter lets it through;
/// the limiter then holds the time of the event.
pub proof fn law_wake_is_rate_limited(
    services: Map<u32, ServiceDataView>,
    limits: Map<u32, i64>,
    packet_log: PacketLog,
    now: i64,
)
    requires
        packet_step(services, limits, packet_log, now).outcome is ScaleUp,
    ensures
        packet_log.action == ACTION_WAKE,
        services.contains_key(packet_log.ipv4_address),
        permits(limits, packet_log.ipv4_address, now),
        packet_step(services, limits, packet_log, now).limits == limits.insert(
            packet_log.ipv4_address,
            now,
        ),
        packet_step(services, limits, packet_log, now).services[packet_log.ipv4_address].backend_available,
{
}

/// Recording a packet moves no time of a last packet backwards, as long
/// as the clock is not behind the record's own time.
pub proof fn law_touch_never_earlier(services: Map<u32, ServiceDataView>, ip: u32, now: i64)
    requires
        clock_not_behind(services, ip, now),
    ensures
        never_earlier(services, touched(services, ip, now)),
        services.contains_key(ip) ==> touched(services, ip, now)[ip].last_packet_time == now,
{
}

/// Changing the availability of a service leaves every time of a last
/// packet as it was.
pub proof fn law_availability_keeps_times(
    services: Map<u32, ServiceDataView>,
    ip: u32,
    available: bool,
)
    ensures
        never_earlier(services, set_available(services, ip, available)),
        forall|k: u32| #[trigger]
            services.contains_key(k) ==> set_available(
                services,
                ip,
                available,
            )[k].last_packet_time == services[k].last_packet_time,
        set_available(services, ip, available).dom() == services.dom(),
{
    assert(set_available(services, ip, available).dom() =~= services.dom());
}

/// A scale-up request leaves every time of a last packet as it was.
pub proof fn law_scale_up_keeps_times(
    services: Map<u32, ServiceDataView>,
    limits: Map<u32, i64>,
    ip: u32,
    now: i64,
)
    ensures
        never_earlier(services, scale_up_step(services, limits, ip, now).services),
{
}

/// Handling an event moves no time of a last packet backwards, as long
/// as the clock is not behind the time of the record that the event is
/// about.
pub proof fn law_packet_never_earlier(
    services: Map<u32, ServiceDataView>,
    limits: Map<u32, i64>,
    packet_log: PacketLog,
    now: i64,
)
    requires
        clock_not_behind(services, packet_log.ipv4_address, now),
    ensures
        never_earlier(services, packet_step(services, limits, packet_log, now).services),
{
    let ip = packet_log.ipv4_address;
    law_touch_never_earlier(services, ip, now);
    law_scale_up_keeps_times(touched(services, ip, now), limits, ip, now);
}

/// Entering a service, anew or again, moves no time of a last packet
/// backwards, as long as the clock is not behind the time of the record
/// that is replaced.
pub proof fn law_upsert_never_earlier(services: Map<u32, ServiceDataView>, ip: u32, record: ServiceDataView)
    requires
        clock_not_behind(services, ip, record.last_packet_time),
    ensures
        never_earlier(services, services.insert(ip, record)),
{
}

/// `never_earlier` composes: what holds of each step holds of a run.
pub proof fn law_never_earlier_transitive(
    a: Map<u32, ServiceDataView>,
    b: Map<u32, ServiceDataView>,
    c: Map<u32, ServiceDataView>,
)
    requires
        never_earlier(a, b),
        never_earlier(b, c),
    ensures
        never_earlier(a, c),
{
    assert forall|ip: u32| #[trigger] a.contains_key(ip) implies c.contains_key(ip)
        && c[ip].last_packet_time >= a[ip].last_packet_time by {
        assert(b.contains_key(ip));
    }
}

/// A table that already agrees with the registry is left as it is by a
/// sync pass.
pub proof fn law_sync_is_idempotent(ips: Seq<u32>, services: Map<u32, ServiceDataView>)
    requires
        forall|i: int| 0 <= i < ips.len() ==> services.contains_key(#[trigger] ips[i]),
    ensures
        synced(ips, desired_table(services), desired_table(services)) == desired_table(services),
{
    let desired = desired_table(services);
    lemma_fill_of_desired(ips, services);
    assert(desired.restrict(desired.dom()) =~= desired);
}

proof fn lemma_fill_of_desired(ips: Seq<u32>, services: Map<u32, ServiceDataView>)
    requires
        forall|i: int| 0 <= i < ips.len() ==> services.contains_key(#[trigger] ips[i]),
    ensures
        fill(ips, desired_table(services), desired_table(services)) == desired_table(services),
    decreases ips.len(),
{
    let desired = desired_table(services);
    if ips.len() > 0 {
        lemma_fill_of_desired(ips.drop_last(), services);
        assert(services.contains_key(ips[ips.len() - 1]));
        assert(desired.insert(ips.last(), desired[ips.last()]) =~= desired);
    }
}

/// Once a scale-down has been recorded for a service, the table that the
/// registry wants holds the scaled-down flag for it, so that the next
/// packet wakes it; once a scale-up has been recorded, it holds the
/// available flag.
pub proof fn law_flag_follows_availability(
    services: Map<u32, ServiceDataView>,
    ip: u32,
    available: bool,
)
    requires
        services.contains_key(ip),
    ensures
        desired_table(set_available(services, ip, available)).contains_key(ip),
        desired_table(set_available(services, ip, available))[ip] == (if available {
            1u32
        } else {
            0u32
        }),
{
}

} // verus!
