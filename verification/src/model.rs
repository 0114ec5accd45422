//! The records that the control plane keeps and exchanges with the kernel.

use vstd::prelude::*;

verus! {

/// The kinds of workload that can back a managed service.
#[derive(Clone, Copy, Debug, PartialEq, Eq, Hash, Structural)]
pub enum WorkloadKind {
    Deployment,
    StatefulSet,
}

/// Identity of a workload: the secondary key under which workload events
/// are routed back to the service that owns them.
#[derive(Clone, Debug, PartialEq, Eq, Hash)]
pub struct WorkloadReference {
    pub kind: WorkloadKind,
    pub name: String,
    pub namespace: String,
}

/// A `WorkloadReference` by content.
pub struct WorkloadReferenceView {
    pub kind: WorkloadKind,
    pub name: Seq<char>,
    pub namespace: Seq<char>,
}

impl View for WorkloadReference {
    type V = WorkloadReferenceView;

    open spec fn view(&self) -> WorkloadReferenceView {
        WorkloadReferenceView { kind: self.kind, name: self.name@, namespace: self.namespace@ }
    }
}

impl WorkloadReference {
    /// Whether two references name the same workload.
    pub fn same_workload(&self, other: &WorkloadReference) -> (b: bool)
        ensures
            b == (self@ == other@),
    {
        self.kind == other.kind && self.name == other.name && self.namespace == other.namespace
    }

    pub fn duplicate(&self) -> (r: WorkloadReference)
        ensures
            r@ == self@,
    {
        WorkloadReference {
            kind: self.kind,
            name: self.name.clone(),
            namespace: self.namespace.clone(),
        }
    }
}

/// What the control plane knows of one managed service.
#[derive(Clone, Debug, PartialEq, Eq)]
pub struct ServiceData {
    /// Idle window in seconds after which the backends are scaled down.
    pub scale_down_time: i64,
    /// Unix time, in seconds, of the last packet seen for the service.
    pub last_packet_time: i64,
    pub kind: WorkloadKind,
    pub name: String,
    pub namespace: String,
    /// True iff the workload has at least one replica.
    pub backend_available: bool,
}

/// A `ServiceData` by content.
pub struct ServiceDataView {
    pub scale_down_time: i64,
    pub last_packet_time: i64,
    pub kind: WorkloadKind,
    pub name: Seq<char>,
    pub namespace: Seq<char>,
    pub backend_available: bool,
}

impl View for ServiceData {
    type V = ServiceDataView;

    open spec fn view(&self) -> ServiceDataView {
        ServiceDataView {
            scale_down_time: self.scale_down_time,
            last_packet_time: self.last_packet_time,
            kind: self.kind,
            name: self.name@,
            namespace: self.namespace@,
            backend_available: self.backend_available,
        }
    }
}

impl ServiceDataView {
    /// This record with its availability flag replaced.
    pub open spec fn with_available(self, available: bool) -> ServiceDataView {
        ServiceDataView { backend_available: available, ..self }
    }

    /// This record with its last-packet time replaced.
    pub open spec fn with_last_packet(self, time: i64) -> ServiceDataView {
        ServiceDataView { last_packet_time: time, ..self }
    }

    /// Whether the service has been idle for longer than its window and
    /// still has backends to take away.
    pub open spec fn idle_at(self, now: i64) -> bool {
        now - self.last_packet_time > self.scale_down_time && self.backend_available
    }
}

impl ServiceData {
    pub fn duplicate(&self) -> (r: ServiceData)
        ensures
            r@ == self@,
    {
        ServiceData {
            scale_down_time: self.scale_down_time,
            last_packet_time: self.last_packet_time,
            kind: self.kind,
            name: self.name.clone(),
            namespace: self.namespace.clone(),
            backend_available: self.backend_available,
        }
    }

    /// Whether the service has been idle at `now` for longer than its
    /// window and still has backends to take away.
    pub fn is_idle_at(&self, now: i64) -> (b: bool)
        ensures
            b == self@.idle_at(now),
    {
        let elapsed: i128 = now as i128 - self.last_packet_time as i128;
        elapsed > self.scale_down_time as i128 && self.backend_available
    }
}

/// The event that the classifier reports to the control plane.
#[derive(Clone, Copy, Debug, PartialEq, Eq, Structural)]
pub struct PacketLog {
    /// Destination address of the packet, host byte order.
    pub ipv4_address: u32,
    /// `ACTION_OBSERVED` or `ACTION_WAKE`.
    pub action: u8,
}

/// The packet went to a service whose backends are available.
pub const ACTION_OBSERVED: u8 = 0;

/// The packet was dropped because the service is scaled down.
pub const ACTION_WAKE: u8 = 1;

} // verus!
