//! The cluster watcher's decisions: which services are managed, and what
//! a workload event means for the registry.

use crate::clock::unix_timestamp;
use crate::index::WorkloadIndex;
use crate::model::{
    ServiceData,
    ServiceDataView,
    WorkloadKind,
    WorkloadReference,
    WorkloadReferenceView,
};
use crate::parse::{
    ipv4_value,
    parse_ipv4,
    parse_reference,
    parse_seconds,
    reference_value,
    seconds_value,
    ReferenceError,
};
use crate::registry::{keys_after_upsert, set_available, ServiceRegistry};
use vstd::prelude::*;
use vstd::string::*;

verus! {

/// The annotation that names the workload behind a managed service, as
/// `<kind>/<name>`.
pub const REFERENCE_ANNOTATION: &'static str = "scale-to-zero.isala.me/reference";

/// The annotation that gives the idle window of a managed service, in
/// seconds.
pub const SCALE_DOWN_TIME_ANNOTATION: &'static str = "scale-to-zero.isala.me/scale-down-time";

/// Seconds given to the backends of a workload to settle before its
/// record is entered or changed.
pub const SETTLE_DELAY_SECS: u64 = 2;

/// What the watcher reads from a service object: its name, its
/// annotations as pairs of key and value, and its cluster IP.
#[derive(Clone, Debug, PartialEq, Eq)]
pub struct ServiceObject {
    pub name: String,
    pub annotations: Vec<(String, String)>,
    pub cluster_ip: Option<String>,
}

/// What the watcher reads from a deployment or a stateful set.
#[derive(Clone, Debug, PartialEq, Eq)]
pub struct WorkloadObject {
    pub name: String,
    pub namespace: Option<String>,
    pub replicas: Option<i32>,
}

/// One applied object from one of the three watched collections.
#[derive(Clone, Debug, PartialEq, Eq)]
pub enum Watched {
    Service(ServiceObject),
    Deployment(WorkloadObject),
    StatefulSet(WorkloadObject),
}

/// Why an event was not acted on.
#[derive(Clone, Copy, Debug, PartialEq, Eq, Structural)]
pub enum WatchError {
    /// The reference annotation is not `<kind>/<name>`.
    MalformedReference,
    /// The reference annotation names a kind that cannot be scaled.
    UnknownKind,
    /// The scale-down-time annotation is not a whole number of seconds.
    InvalidScaleDownTime,
    /// The service has no cluster IP.
    MissingClusterIp,
    /// The cluster IP is not an IPv4 address.
    InvalidClusterIp,
    /// The workload has no namespace.
    MissingNamespace,
    /// The workload does not say how many replicas it has.
    MissingReplicas,
}

/// A service that carries both annotations, well formed.
#[derive(Clone, Debug, PartialEq, Eq)]
pub struct ManagedService {
    pub kind: WorkloadKind,
    pub workload_name: String,
    pub scale_down_time: i64,
    pub cluster_ip: u32,
}

/// A `ManagedService` by content.
pub struct ManagedServiceView {
    pub kind: WorkloadKind,
    pub workload_name: Seq<char>,
    pub scale_down_time: i64,
    pub cluster_ip: u32,
}

impl View for ManagedService {
    type V = ManagedServiceView;

    open spec fn view(&self) -> ManagedServiceView {
        ManagedServiceView {
            kind: self.kind,
            workload_name: self.workload_name@,
            scale_down_time: self.scale_down_time,
            cluster_ip: self.cluster_ip,
        }
    }
}

/// What a workload event says of a managed service.
#[derive(Clone, Copy, Debug, PartialEq, Eq, Structural)]
pub struct WorkloadUpdate {
    pub cluster_ip: u32,
    pub replicas: i32,
}

/// The text of an optional string.
pub open spec fn text_of(s: Option<String>) -> Option<Seq<char>> {
    match s {
        Some(s) => Some(s@),
        None => None,
    }
}

/// Whether `i` is the place of the first annotation with the key `key`.
pub open spec fn is_first_with_key(
    annotations: Seq<(String, String)>,
    key: Seq<char>,
    i: int,
) -> bool {
    &&& 0 <= i < annotations.len()
    &&& annotations[i].0@ == key
    &&& forall|j: int| 0 <= j < i ==> (#[trigger] annotations[j]).0@ != key
}

/// The value of the first annotation with the key `key`, if there is one.
pub open spec fn annotation_value(annotations: Seq<(String, String)>, key: Seq<char>) -> Option<
    Seq<char>,
> {
    if exists|i: int| is_first_with_key(annotations, key, i) {
        Some(annotations[choose|i: int| is_first_with_key(annotations, key, i)].1@)
    } else {
        None
    }
}

/// The value of the first annotation with the key `key`, if there is one.
pub fn find_annotation<'a>(annotations: &'a Vec<(String, String)>, key: &str) -> (r: Option<
    &'a String,
>)
    ensures
        match r {
            Some(value) => annotation_value(annotations@, key@) == Some(value@),
            None => annotation_value(annotations@, key@) is None,
        },
{
    let wanted = String::from_str(key);
    let mut i: usize = 0;
    while i < annotations.len()
        invariant
            i <= annotations@.len(),
            wanted@ == key@,
            forall|j: int| 0 <= j < i ==> (#[trigger] annotations@[j]).0@ != key@,
        decreases annotations@.len() - i,
    {
        if annotations[i].0 == wanted {
            proof {
                assert(is_first_with_key(annotations@, key@, i as int));
                let chosen = choose|x: int| is_first_with_key(annotations@, key@, x);
                assert(chosen == i as int) by {
                    if chosen < i {
                        assert(annotations@[chosen].0@ != key@);
                    } else if chosen > i {
                        assert(annotations@[i as int].0@ != key@);
                    }
                }
            }
            return Some(&annotations[i].1);
        }
        i += 1;
    }
    assert forall|x: int| !is_first_with_key(annotations@, key@, x) by {
        if is_first_with_key(annotations@, key@, x) {
            assert(annotations@[x].0@ != key@);
        }
    }
    None
}

/// Whether a service is managed, and as what. A service that lacks one
/// of the two annotations is not managed; one that carries both must
/// carry them well formed and have an IPv4 cluster IP.
pub open spec fn managed_service_value(
    reference: Option<Seq<char>>,
    scale_down_time: Option<Seq<char>>,
    cluster_ip: Option<Seq<char>>,
) -> Result<Option<ManagedServiceView>, WatchError> {
    if reference is None || scale_down_time is None {
        Ok(None)
    } else if reference_value(reference->0) == Err::<(WorkloadKind, Seq<char>), ReferenceError>(
        ReferenceError::Malformed,
    ) {
        Err(WatchError::MalformedReference)
    } else if seconds_value(scale_down_time->0) is None {
        Err(WatchError::InvalidScaleDownTime)
    } else if cluster_ip is None {
        Err(WatchError::MissingClusterIp)
    } else if ipv4_value(cluster_ip->0) is None {
        Err(WatchError::InvalidClusterIp)
    } else {
        match reference_value(reference->0) {
            Ok((kind, name)) => Ok(
                Some(
                    ManagedServiceView {
                        kind,
                        workload_name: name,
                        scale_down_time: seconds_value(scale_down_time->0)->0,
                        cluster_ip: ipv4_value(cluster_ip->0)->0,
                    },
                ),
            ),
            Err(_) => Err(WatchError::UnknownKind),
        }
    }
}

/// Whether a service object is managed, and as what.
pub open spec fn service_value(service: ServiceObject) -> Result<
    Option<ManagedServiceView>,
    WatchError,
> {
    managed_service_value(
        annotation_value(service.annotations@, REFERENCE_ANNOTATION@),
        annotation_value(service.annotations@, SCALE_DOWN_TIME_ANNOTATION@),
        text_of(service.cluster_ip),
    )
}

/// Decides whether a service is managed and reads its annotations.
pub fn managed_service(service: &ServiceObject) -> (r: Result<Option<ManagedService>, WatchError>)
    ensures
        match r {
            Ok(Some(m)) => service_value(*service) == Ok::<Option<ManagedServiceView>, WatchError>(
                Some(m@),
            ),
            Ok(None) => service_value(*service) == Ok::<Option<ManagedServiceView>, WatchError>(
                None,
            ),
            Err(e) => service_value(*service) == Err::<Option<ManagedServiceView>, WatchError>(e),
        },
{
    let reference = match find_annotation(&service.annotations, REFERENCE_ANNOTATION) {
        Some(text) => text,
        None => {
            return Ok(None);
        },
    };
    let scale_down_text = match find_annotation(&service.annotations, SCALE_DOWN_TIME_ANNOTATION) {
        Some(text) => text,
        None => {
            return Ok(None);
        },
    };
    let parsed = parse_reference(reference.as_str());
    match &parsed {
        Err(ReferenceError::Malformed) => {
            return Err(WatchError::MalformedReference);
        },
        _ => {},
    }
    let scale_down_time = match parse_seconds(scale_down_text.as_str()) {
        Some(seconds) => seconds,
        None => {
            return Err(WatchError::InvalidScaleDownTime);
        },
    };
    let ip_text = match &service.cluster_ip {
        Some(text) => text,
        None => {
            return Err(WatchError::MissingClusterIp);
        },
    };
    let cluster_ip = match parse_ipv4(ip_text.as_str()) {
        Some(ip) => ip,
        None => {
            return Err(WatchError::InvalidClusterIp);
        },
    };
    match parsed {
        Ok((kind, workload_name)) => Ok(
            Some(ManagedService { kind, workload_name, scale_down_time, cluster_ip }),
        ),
        Err(_) => Err(WatchError::UnknownKind),
    }
}

/// The record with which a service enters the registry.
pub open spec fn fresh_record(
    kind: WorkloadKind,
    name: Seq<char>,
    namespace: Seq<char>,
    replicas: i32,
    scale_down_time: i64,
    now: i64,
) -> ServiceDataView {
    ServiceDataView {
        scale_down_time,
        last_packet_time: now,
        kind,
        name,
        namespace,
        backend_available: replicas >= 1,
    }
}

/// Enters, at `now`, a managed service whose workload was found: the
/// workload is indexed under its identity, and the record of
/// `service_ip` is created or replaced, with `now` as the time of the
/// last packet and the backends available iff there is at least one
/// replica.
pub fn update_workload_status_at(
    kind: WorkloadKind,
    name: String,
    namespace: Option<String>,
    replicas: i32,
    index: &mut WorkloadIndex,
    registry: &mut ServiceRegistry,
    service_ip: u32,
    scale_down_time: i64,
    now: i64,
) -> (r: Result<(), WatchError>)
    requires
        old(index).wf(),
        old(registry).wf(),
    ensures
        final(index).wf(),
        final(registry).wf(),
        namespace is None ==> r == Err::<(), WatchError>(WatchError::MissingNamespace)
            && final(index)@ == old(index)@ && final(registry)@ == old(registry)@
            && final(registry).key_seq() == old(registry).key_seq(),
        namespace matches Some(ns) ==> r is Ok && final(index)@ == old(index)@.insert(
            WorkloadReferenceView { kind, name: name@, namespace: ns@ },
            service_ip,
        ) && final(registry)@ == old(registry)@.insert(
            service_ip,
            fresh_record(kind, name@, ns@, replicas, scale_down_time, now),
        ),
        namespace is Some ==> final(registry).key_seq() == keys_after_upsert(
            old(registry).key_seq(),
            old(registry)@,
            service_ip,
        ),
{
    let namespace = match namespace {
        Some(ns) => ns,
        None => {
            return Err(WatchError::MissingNamespace);
        },
    };
    index.insert(
        WorkloadReference { kind, name: name.clone(), namespace: namespace.clone() },
        service_ip,
    );
    registry.upsert_service(
        service_ip,
        ServiceData {
            scale_down_time,
            last_packet_time: now,
            kind,
            name,
            namespace,
            backend_available: replicas >= 1,
        },
    );
    Ok(())
}

/// Enters a managed service at `now`, given the workload that its
/// reference names as the orchestrator returned it.
pub fn register_service_at(
    service: ManagedService,
    workload: &WorkloadObject,
    index: &mut WorkloadIndex,
    registry: &mut ServiceRegistry,
    now: i64,
) -> (r: Result<(), WatchError>)
    requires
        old(index).wf(),
        old(registry).wf(),
    ensures
        final(index).wf(),
        final(registry).wf(),
        r is Ok <==> workload.replicas is Some && workload.namespace is Some,
        r is Err ==> final(index)@ == old(index)@ && final(registry)@ == old(registry)@
            && final(registry).key_seq() == old(registry).key_seq(),
        r is Ok ==> final(registry).key_seq() == keys_after_upsert(
            old(registry).key_seq(),
            old(registry)@,
            service.cluster_ip,
        ),
        r is Err ==> r == Err::<(), WatchError>(
            if workload.replicas is None {
                WatchError::MissingReplicas
            } else {
                WatchError::MissingNamespace
            },
        ),
        r is Ok ==> final(index)@ == old(index)@.insert(
            WorkloadReferenceView {
                kind: service.kind,
                name: workload.name@,
                namespace: workload.namespace->0@,
            },
            service.cluster_ip,
        ) && final(registry)@ == old(registry)@.insert(
            service.cluster_ip,
            fresh_record(
                service.kind,
                workload.name@,
                workload.namespace->0@,
                workload.replicas->0,
                service.scale_down_time,
                now,
            ),
        ),
{
    let replicas = match workload.replicas {
        Some(n) => n,
        None => {
            return Err(WatchError::MissingReplicas);
        },
    };
    let namespace = match &workload.namespace {
        Some(ns) => Some(ns.clone()),
        None => None,
    };
    update_workload_status_at(
        service.kind,
        workload.name.clone(),
        namespace,
        replicas,
        index,
        registry,
        service.cluster_ip,
        service.scale_down_time,
        now,
    )
}

/// Enters a managed service whose workload was found, by the wall
/// clock: `update_workload_status_at` at the time read.
pub fn update_workload_status(
    kind: WorkloadKind,
    name: String,
    namespace: Option<String>,
    replicas: i32,
    index: &mut WorkloadIndex,
    registry: &mut ServiceRegistry,
    service_ip: u32,
    scale_down_time: i64,
) -> (r: Result<(), WatchError>)
    requires
        old(index).wf(),
        old(registry).wf(),
    ensures
        final(index).wf(),
        final(registry).wf(),
        namespace is None ==> r == Err::<(), WatchError>(WatchError::MissingNamespace)
            && final(index)@ == old(index)@ && final(registry)@ == old(registry)@
            && final(registry).key_seq() == old(registry).key_seq(),
        namespace is Some ==> final(registry).key_seq() == keys_after_upsert(
            old(registry).key_seq(),
            old(registry)@,
            service_ip,
        ),
        namespace matches Some(ns) ==> r is Ok && final(index)@ == old(index)@.insert(
            WorkloadReferenceView { kind, name: name@, namespace: ns@ },
            service_ip,
        ) && exists|now: i64|
            final(registry)@ == old(registry)@.insert(
                service_ip,
                #[trigger] fresh_record(kind, name@, ns@, replicas, scale_down_time, now),
            ),
{
    let now = unix_timestamp();
    update_workload_status_at(
        kind,
        name,
        namespace,
        replicas,
        index,
        registry,
        service_ip,
        scale_down_time,
        now,
    )
}

/// Enters a managed service by the wall clock: `register_service_at` at
/// the time read.
pub fn register_service(
    service: ManagedService,
    workload: &WorkloadObject,
    index: &mut WorkloadIndex,
    registry: &mut ServiceRegistry,
) -> (r: Result<(), WatchError>)
    requires
        old(index).wf(),
        old(registry).wf(),
    ensures
        final(index).wf(),
        final(registry).wf(),
        r is Ok <==> workload.replicas is Some && workload.namespace is Some,
        r is Err ==> final(index)@ == old(index)@ && final(registry)@ == old(registry)@
            && final(registry).key_seq() == old(registry).key_seq(),
        r is Ok ==> final(registry).key_seq() == keys_after_upsert(
            old(registry).key_seq(),
            old(registry)@,
            service.cluster_ip,
        ),
        r is Err ==> r == Err::<(), WatchError>(
            if workload.replicas is None {
                WatchError::MissingReplicas
            } else {
                WatchError::MissingNamespace
            },
        ),
        r is Ok ==> final(index)@ == old(index)@.insert(
            WorkloadReferenceView {
                kind: service.kind,
                name: workload.name@,
                namespace: workload.namespace->0@,
            },
            service.cluster_ip,
        ) && exists|now: i64|
            final(registry)@ == old(registry)@.insert(
                service.cluster_ip,
                #[trigger] fresh_record(
                    service.kind,
                    workload.name@,
                    workload.namespace->0@,
                    workload.replicas->0,
                    service.scale_down_time,
                    now,
                ),
            ),
{
    let now = unix_timestamp();
    register_service_at(service, workload, index, registry, now)
}

/// What a workload event means: nothing if no managed service owns the
/// workload, else the replica count to record for the owning service.
pub open spec fn workload_update(
    kind: WorkloadKind,
    resource: WorkloadObject,
    index: Map<WorkloadReferenceView, u32>,
) -> Result<Option<WorkloadUpdate>, WatchError> {
    match resource.namespace {
        None => Err(WatchError::MissingNamespace),
        Some(ns) => {
            let key = WorkloadReferenceView { kind, name: resource.name@, namespace: ns@ };
            if !index.contains_key(key) {
                Ok(None)
            } else {
                match resource.replicas {
                    None => Err(WatchError::MissingReplicas),
                    Some(replicas) => Ok(Some(WorkloadUpdate { cluster_ip: index[key], replicas })),
                }
            }
        },
    }
}

/// Routes a workload event to the service that owns the workload.
pub fn resolve_workload_event(
    kind: WorkloadKind,
    resource: &WorkloadObject,
    index: &WorkloadIndex,
) -> (r: Result<Option<WorkloadUpdate>, WatchError>)
    requires
        index.wf(),
    ensures
        r == workload_update(kind, *resource, index@),
{
    let namespace = match &resource.namespace {
        Some(ns) => ns.clone(),
        None => {
            return Err(WatchError::MissingNamespace);
        },
    };
    let key = WorkloadReference { kind, name: resource.name.clone(), namespace };
    let cluster_ip = match index.get(&key) {
        Some(ip) => ip,
        None => {
            return Ok(None);
        },
    };
    match resource.replicas {
        Some(replicas) => Ok(Some(WorkloadUpdate { cluster_ip, replicas })),
        None => Err(WatchError::MissingReplicas),
    }
}

/// Handles a workload event: the record of the owning service, if there
/// is one, is made available iff the workload has at least one replica.
pub fn process_resource(
    kind: WorkloadKind,
    resource: &WorkloadObject,
    index: &WorkloadIndex,
    registry: &mut ServiceRegistry,
) -> (r: Result<Option<WorkloadUpdate>, WatchError>)
    requires
        index.wf(),
        old(registry).wf(),
    ensures
        final(registry).wf(),
        r == workload_update(kind, *resource, index@),
        final(registry).key_seq() == old(registry).key_seq(),
        r matches Ok(Some(update)) ==> final(registry)@ == set_available(
            old(registry)@,
            update.cluster_ip,
            update.replicas >= 1,
        ),
        r matches Ok(Some(update)) ==> (old(registry)@.contains_key(update.cluster_ip) ==> final(registry)@[
            update.cluster_ip
        ].backend_available == (update.replicas >= 1)),
        !(r matches Ok(Some(_))) ==> final(registry)@ == old(registry)@,
{
    let r = resolve_workload_event(kind, resource, index);
    match r {
        Ok(Some(update)) => {
            registry.apply_workload_update(update.cluster_ip, update.replicas);
        },
        _ => {},
    }
    r
}

/// What the watcher does next for an event.
#[derive(Clone, Debug, PartialEq, Eq)]
pub enum WatchAction {
    /// The event concerns nothing that is managed.
    Skip,
    /// Fetch the workload that the service refers to, then enter the
    /// service with `register_service`.
    Resolve(ManagedService),
    /// Let the backends settle, then record the replica count with
    /// `ServiceRegistry::apply_workload_update`.
    Settle(WorkloadUpdate),
}

/// Whether `r` is the watcher's answer to `event`.
pub open spec fn watch_step(
    event: Watched,
    index: Map<WorkloadReferenceView, u32>,
    r: Result<WatchAction, WatchError>,
) -> bool {
    match event {
        Watched::Service(service) => {
            let value = service_value(service);
            match r {
                Ok(WatchAction::Skip) => value == Ok::<Option<ManagedServiceView>, WatchError>(
                    None,
                ),
                Ok(WatchAction::Resolve(m)) => value == Ok::<
                    Option<ManagedServiceView>,
                    WatchError,
                >(Some(m@)),
                Ok(WatchAction::Settle(_)) => false,
                Err(e) => value == Err::<Option<ManagedServiceView>, WatchError>(e),
            }
        },
        Watched::Deployment(resource) => workload_step(
            workload_update(WorkloadKind::Deployment, resource, index),
            r,
        ),
        Watched::StatefulSet(resource) => workload_step(
            workload_update(WorkloadKind::StatefulSet, resource, index),
            r,
        ),
    }
}

/// Whether `r` is the watcher's answer to a workload event that means
/// `update`.
pub open spec fn workload_step(
    update: Result<Option<WorkloadUpdate>, WatchError>,
    r: Result<WatchAction, WatchError>,
) -> bool {
    match update {
        Ok(None) => r == Ok::<WatchAction, WatchError>(WatchAction::Skip),
        Ok(Some(u)) => r == Ok::<WatchAction, WatchError>(WatchAction::Settle(u)),
        Err(e) => r == Err::<WatchAction, WatchError>(e),
    }
}

/// The watcher's decision for one event of the merged stream. An error
/// concerns this event alone: the caller reports it and goes on.
pub fn kube_event_watcher(event: &Watched, index: &WorkloadIndex) -> (r: Result<
    WatchAction,
    WatchError,
>)
    requires
        index.wf(),
    ensures
        watch_step(*event, index@, r),
{
    match event {
        Watched::Service(service) => {
            match managed_service(service) {
                Ok(Some(managed)) => Ok(WatchAction::Resolve(managed)),
                Ok(None) => Ok(WatchAction::Skip),
                Err(e) => Err(e),
            }
        },
        Watched::Deployment(resource) => {
            match resolve_workload_event(WorkloadKind::Deployment, resource, index) {
                Ok(Some(update)) => Ok(WatchAction::Settle(update)),
                Ok(None) => Ok(WatchAction::Skip),
                Err(e) => Err(e),
            }
        },
        Watched::StatefulSet(resource) => {
            match resolve_workload_event(WorkloadKind::StatefulSet, resource, index) {
                Ok(Some(update)) => Ok(WatchAction::Settle(update)),
                Ok(None) => Ok(WatchAction::Skip),
                Err(e) => Err(e),
            }
        },
    }
}

} // verus!
