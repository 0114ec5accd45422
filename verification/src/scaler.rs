//! Scaling decisions: packet-driven scale-up behind a rate limiter, and
//! time-driven scale-down of idle services.

use crate::clock::unix_timestamp;
use crate::ipmap::IpMap;
use crate::model::{ServiceDataView, WorkloadKind};
use crate::registry::{set_available, ServiceRegistry};
use vstd::prelude::*;

verus! {

/// Seconds that must lie between two scale-ups of one service.
pub const RATE_LIMIT_WINDOW_SECS: i64 = 5;

/// Seconds between two looks for idle services.
pub const SCALE_DOWN_INTERVAL_SECS: u64 = 1;

/// A change of the replica count of a workload, to be submitted to the
/// orchestrator as a merge patch of `spec.replicas`.
#[derive(Clone, Debug, PartialEq, Eq)]
pub struct ScalePatch {
    pub kind: WorkloadKind,
    pub name: String,
    pub replicas: i32,
}

/// A `ScalePatch` by content.
pub struct ScalePatchView {
    pub kind: WorkloadKind,
    pub name: Seq<char>,
    pub replicas: i32,
}

impl View for ScalePatch {
    type V = ScalePatchView;

    open spec fn view(&self) -> ScalePatchView {
        ScalePatchView { kind: self.kind, name: self.name@, replicas: self.replicas }
    }
}

/// The patch that sets the workload of `record` to `replicas`.
pub open spec fn patch_for(record: ServiceDataView, replicas: i32) -> ScalePatchView {
    ScalePatchView { kind: record.kind, name: record.name, replicas }
}

/// The content of the answer to a scale-up request.
pub open spec fn answer_view(answer: Result<ScalePatch, ScaleError>) -> Result<
    ScalePatchView,
    ScaleError,
> {
    match answer {
        Ok(patch) => Ok(patch@),
        Err(e) => Err(e),
    }
}

/// Why a scale-up was not issued.
#[derive(Clone, Copy, Debug, PartialEq, Eq, Structural)]
pub enum ScaleError {
    /// The service was last scaled up less than the window before now.
    RateLimited,
    /// No record is kept for the address.
    UnknownService,
}

impl ScaleError {
    /// Whether this is the expected refusal of the rate limiter, which
    /// callers need not report.
    pub fn is_rate_limited(&self) -> (b: bool)
        ensures
            b == (*self == ScaleError::RateLimited),
    {
        match self {
            ScaleError::RateLimited => true,
            _ => false,
        }
    }
}

/// Whether the limiter lets a scale-up of `ip` through at `now`: there
/// was none before, or the last one lies a whole window back. A clock
/// that reads earlier than at the last scale-up lets none through.
pub open spec fn permits(limits: Map<u32, i64>, ip: u32, now: i64) -> bool {
    limits.contains_key(ip) ==> now - limits[ip] >= RATE_LIMIT_WINDOW_SECS
}

/// When each service was last scaled up, in unix seconds.
pub struct RateLimiter {
    last_called: IpMap<i64>,
}

impl RateLimiter {
    pub closed spec fn wf(&self) -> bool {
        self.last_called.wf()
    }

    pub closed spec fn view(&self) -> Map<u32, i64> {
        self.last_called@
    }

    pub fn new() -> (l: Self)
        ensures
            l.wf(),
            l@ == Map::<u32, i64>::empty(),
    {
        RateLimiter { last_called: IpMap::new() }
    }

    /// The time of the last scale-up of `ip`, if there was one.
    pub fn last(&self, ip: u32) -> (r: Option<i64>)
        requires
            self.wf(),
        ensures
            r == (if self@.contains_key(ip) {
                Some(self@[ip])
            } else {
                None
            }),
    {
        match self.last_called.get(ip) {
            Some(t) => Some(*t),
            None => None,
        }
    }

    /// Checks the window for `ip` and, if it has passed, records `now` as
    /// the time of the last scale-up. A refusal changes nothing.
    pub fn try_acquire(&mut self, ip: u32, now: i64) -> (r: Result<(), ScaleError>)
        requires
            old(self).wf(),
        ensures
            final(self).wf(),
            r is Ok <==> permits(old(self)@, ip, now),
            r is Ok ==> final(self)@ == old(self)@.insert(ip, now),
            r is Err ==> r == Err::<(), ScaleError>(ScaleError::RateLimited) && final(self)@
                == old(self)@,
    {
        match self.last_called.get(ip) {
            Some(last) => {
                let elapsed: i128 = now as i128 - *last as i128;
                if elapsed < RATE_LIMIT_WINDOW_SECS as i128 {
                    return Err(ScaleError::RateLimited);
                }
            },
            None => {},
        }
        self.last_called.insert(ip, now);
        Ok(())
    }
}

/// The state after a scale-up request, and its answer.
pub struct ScaleUpStep {
    pub services: Map<u32, ServiceDataView>,
    pub limits: Map<u32, i64>,
    pub answer: Result<ScalePatchView, ScaleError>,
}

/// A scale-up request for `ip` at `now`. The limiter is consulted first
/// and, if it lets the request through, set to `now`. Then the record is
/// marked available at once and the patch to one replica is the answer.
/// A refused request changes nothing.
pub open spec fn scale_up_step(
    services: Map<u32, ServiceDataView>,
    limits: Map<u32, i64>,
    ip: u32,
    now: i64,
) -> ScaleUpStep {
    if !permits(limits, ip, now) {
        ScaleUpStep { services, limits, answer: Err(ScaleError::RateLimited) }
    } else if !services.contains_key(ip) {
        ScaleUpStep {
            services,
            limits: limits.insert(ip, now),
            answer: Err(ScaleError::UnknownService),
        }
    } else {
        ScaleUpStep {
            services: set_available(services, ip, true),
            limits: limits.insert(ip, now),
            answer: Ok(patch_for(services[ip], 1)),
        }
    }
}

/// Asks at `now` for the backends of `ip` to come up, at most once per
/// window.
///
/// The limiter is consulted first and, if it lets the request through,
/// set to `now`. Then the record is marked available at once, so that
/// later packets stop waking the service, and the patch to one replica is
/// returned for submission.
pub fn scale_up_at(registry: &mut ServiceRegistry, limiter: &mut RateLimiter, ip: u32, now: i64) -> (r:
    Result<ScalePatch, ScaleError>)
    requires
        old(registry).wf(),
        old(limiter).wf(),
    ensures
        final(registry).wf(),
        final(limiter).wf(),
        scale_up_step(old(registry)@, old(limiter)@, ip, now) == (ScaleUpStep {
            services: final(registry)@,
            limits: final(limiter)@,
            answer: answer_view(r),
        }),
        r is Ok <==> permits(old(limiter)@, ip, now) && old(registry)@.contains_key(ip),
        r matches Ok(patch) ==> patch@ == patch_for(old(registry)@[ip], 1) && final(registry)@
            == set_available(old(registry)@, ip, true),
        r is Err ==> final(registry)@ == old(registry)@,
        final(registry).key_seq() == old(registry).key_seq(),
        permits(old(limiter)@, ip, now) ==> final(limiter)@ == old(limiter)@.insert(ip, now),
        !permits(old(limiter)@, ip, now) ==> final(limiter)@ == old(limiter)@,
        r == Err::<ScalePatch, ScaleError>(ScaleError::RateLimited) <==> !permits(
            old(limiter)@,
            ip,
            now,
        ),
        r == Err::<ScalePatch, ScaleError>(ScaleError::UnknownService) <==> permits(
            old(limiter)@,
            ip,
            now,
        ) && !old(registry)@.contains_key(ip),
{
    match limiter.try_acquire(ip, now) {
        Err(e) => {
            return Err(e);
        },
        Ok(()) => {},
    }
    match registry.get(ip) {
        None => Err(ScaleError::UnknownService),
        Some(record) => {
            registry.mark_scaled_up(ip);
            Ok(ScalePatch { kind: record.kind, name: record.name, replicas: 1 })
        },
    }
}

/// A scale-down that is due: the service and the patch to zero replicas.
#[derive(Clone, Debug, PartialEq, Eq)]
pub struct ScaleDown {
    pub ip: u32,
    pub patch: ScalePatch,
}

/// The addresses of `ips` whose records have been idle for longer than
/// their window at `now` and still have backends, in the order of `ips`.
pub open spec fn due(ips: Seq<u32>, services: Map<u32, ServiceDataView>, now: i64) -> Seq<u32>
    decreases ips.len(),
{
    if ips.len() == 0 {
        Seq::empty()
    } else if services[ips.last()].idle_at(now) {
        due(ips.drop_last(), services, now).push(ips.last())
    } else {
        due(ips.drop_last(), services, now)
    }
}

/// `due` keeps exactly the idle addresses.
pub proof fn lemma_due_contains(ips: Seq<u32>, services: Map<u32, ServiceDataView>, now: i64, ip: u32)
    ensures
        due(ips, services, now).contains(ip) <==> ips.contains(ip) && services[ip].idle_at(now),
    decreases ips.len(),
{
    if ips.len() > 0 {
        let rest = ips.drop_last();
        let last = ips.last();
        let d = due(rest, services, now);
        lemma_due_contains(rest, services, now, ip);
        if ips.contains(ip) {
            let j = choose|j: int| 0 <= j < ips.len() && ips[j] == ip;
            if j < rest.len() {
                assert(rest[j] == ip);
            }
        }
        if rest.contains(ip) {
            let j = choose|j: int| 0 <= j < rest.len() && rest[j] == ip;
            assert(ips[j] == ip);
        }
        if services[last].idle_at(now) {
            let dp = d.push(last);
            assert(dp[d.len() as int] == last);
            if d.contains(ip) {
                let j = choose|j: int| 0 <= j < d.len() && d[j] == ip;
                assert(dp[j] == ip);
            }
            if dp.contains(ip) {
                let j = choose|j: int| 0 <= j < dp.len() && dp[j] == ip;
                if j < d.len() {
                    assert(d[j] == ip);
                }
            }
            assert(ips[ips.len() - 1] == last);
        } else {
            assert(ips[ips.len() - 1] == last);
        }
    }
}

proof fn lemma_due_push(ips: Seq<u32>, ip: u32, services: Map<u32, ServiceDataView>, now: i64)
    ensures
        due(ips.push(ip), services, now) == (if services[ip].idle_at(now) {
            due(ips, services, now).push(ip)
        } else {
            due(ips, services, now)
        }),
{
    assert(ips.push(ip).drop_last() =~= ips);
}

/// Whether `downs` are the scale-downs that are due at `now`: one for
/// each idle address, in the order of `ips`, with the patch to zero
/// replicas of its workload.
pub open spec fn scale_down_plan(
    ips: Seq<u32>,
    services: Map<u32, ServiceDataView>,
    now: i64,
    downs: Seq<ScaleDown>,
) -> bool {
    &&& downs.len() == due(ips, services, now).len()
    &&& forall|t: int|
        0 <= t < downs.len() ==> (#[trigger] downs[t]).ip == due(ips, services, now)[t]
            && downs[t].patch@ == patch_for(services[downs[t].ip], 0)
}

/// The scale-downs that are due at `now`, in registry order: one for
/// every record that has seen no packet for longer than its window and
/// whose backends are available, and no other. The registry is left as
/// it is; a record is marked once its patch has gone through.
pub fn scale_down_at(registry: &ServiceRegistry, now: i64) -> (downs: Vec<ScaleDown>)
    requires
        registry.wf(),
    ensures
        scale_down_plan(registry.key_seq(), registry@, now, downs@),
        forall|t: int|
            0 <= t < downs@.len() ==> registry@.contains_key((#[trigger] downs@[t]).ip)
                && registry@[downs@[t].ip].idle_at(now),
        forall|ip: u32|
            registry@.contains_key(ip) && (#[trigger] registry@[ip]).idle_at(now) ==> exists|t: int|
                0 <= t < downs@.len() && (#[trigger] downs@[t]).ip == ip,
{
    proof {
        registry.lemma_keys();
    }
    let ghost ips = registry.key_seq();
    let keys = registry.keys();
    let n = keys.len();
    let mut downs: Vec<ScaleDown> = Vec::new();
    let mut i: usize = 0;
    assert(ips.subrange(0, 0) =~= Seq::<u32>::empty());
    while i < n
        invariant
            registry.wf(),
            ips == registry.key_seq(),
            keys@ == ips,
            n == ips.len(),
            i <= n,
            forall|j: int| 0 <= j < n ==> registry@.contains_key(#[trigger] ips[j]),
            downs@.len() == due(ips.subrange(0, i as int), registry@, now).len(),
            forall|t: int|
                0 <= t < downs@.len() ==> (#[trigger] downs@[t]).ip == due(
                    ips.subrange(0, i as int),
                    registry@,
                    now,
                )[t] && downs@[t].patch@ == patch_for(registry@[downs@[t].ip], 0),
        decreases n - i,
    {
        let ip = keys[i];
        proof {
            lemma_due_push(ips.subrange(0, i as int), ip, registry@, now);
            assert(ips.subrange(0, i as int).push(ip) =~= ips.subrange(0, i + 1));
            assert(registry@.contains_key(ips[i as int]));
        }
        match registry.get(ip) {
            Some(record) => {
                if record.is_idle_at(now) {
                    downs.push(
                        ScaleDown {
                            ip,
                            patch: ScalePatch { kind: record.kind, name: record.name, replicas: 0 },
                        },
                    );
                }
            },
            None => {},
        }
        i += 1;
    }
    proof {
        assert(ips.subrange(0, n as int) =~= ips);
        let d = due(ips, registry@, now);
        assert forall|t: int| 0 <= t < downs@.len() implies registry@.contains_key(
            (#[trigger] downs@[t]).ip,
        ) && registry@[downs@[t].ip].idle_at(now) by {
            lemma_due_contains(ips, registry@, now, d[t]);
            assert(d.contains(d[t]));
            assert(ips.to_set().contains(d[t]));
        }
        assert forall|ip: u32|
            registry@.contains_key(ip) && (#[trigger] registry@[ip]).idle_at(now) implies exists|
            t: int,
        |
            0 <= t < downs@.len() && (#[trigger] downs@[t]).ip == ip by {
            lemma_due_contains(ips, registry@, now, ip);
            assert(ips.to_set().contains(ip));
            assert(d.contains(ip));
            let t = choose|t: int| 0 <= t < d.len() && d[t] == ip;
            assert(downs@[t].ip == ip);
        }
    }
    downs
}

/// Asks for the backends of `ip` to come up, at most once per window,
/// by the wall clock: `scale_up_at` at the time read.
pub fn scale_up(registry: &mut ServiceRegistry, limiter: &mut RateLimiter, ip: u32) -> (r: Result<
    ScalePatch,
    ScaleError,
>)
    requires
        old(registry).wf(),
        old(limiter).wf(),
    ensures
        final(registry).wf(),
        final(limiter).wf(),
        final(registry).key_seq() == old(registry).key_seq(),
        exists|now: i64| #[trigger]
            scale_up_step(old(registry)@, old(limiter)@, ip, now) == (ScaleUpStep {
                services: final(registry)@,
                limits: final(limiter)@,
                answer: answer_view(r),
            }),
{
    let now = unix_timestamp();
    scale_up_at(registry, limiter, ip, now)
}

/// The scale-downs that are due by the wall clock: `scale_down_at` at
/// the time read.
pub fn scale_down(registry: &ServiceRegistry) -> (downs: Vec<ScaleDown>)
    requires
        registry.wf(),
    ensures
        exists|now: i64| #[trigger] scale_down_plan(registry.key_seq(), registry@, now, downs@),
{
    let now = unix_timestamp();
    scale_down_at(registry, now)
}

} // verus!
