//! The runtime service: what requests ask for, and how reports are told.

use crate::shell::proto;
use crate::text_map::TextMap;
use crate::types::{
    ContainerConfig, ContainerConfigView, ContainerFilter, ContainerFilterView, ContainerId,
    ContainerState, ContainerStatsRec, ContainerStatsRecView, ContainerStatus, ContainerStatusView,
    Mount, MountView, SandboxConfig, SandboxConfigView, SandboxFilter, SandboxFilterView, SandboxId,
    SandboxState, SandboxStatus, SandboxStatusView,
};
use std::sync::Arc;
use vstd::prelude::*;
use vstd::string::*;

verus! {

/// The runtime service over a backend. It keeps nothing besides.
#[derive(Debug)]
pub struct RuntimeShell<B> {
    pub backend: Arc<B>,
}

impl<B> RuntimeShell<B> {
    /// The service over the backend.
    pub fn new(backend: Arc<B>) -> (r: Self)
        ensures
            r.backend == backend,
    {
        RuntimeShell { backend }
    }
}

/// How a request is refused.
#[derive(Clone, Copy, Debug, PartialEq, Eq, Structural)]
pub enum Code {
    InvalidArgument,
    Unimplemented,
}

/// A request that does not reach the backend.
#[derive(Debug, PartialEq, Eq)]
pub struct Refusal {
    pub code: Code,
    pub message: String,
}

/// What a [`Refusal`] says.
#[verifier::ext_equal]
pub struct RefusalView {
    pub code: Code,
    pub message: Seq<char>,
}

impl View for Refusal {
    type V = RefusalView;

    open spec fn view(&self) -> RefusalView {
        RefusalView { code: self.code, message: self.message@ }
    }
}

/// The number of a sandbox's state.
pub open spec fn sandbox_state_number(s: SandboxState) -> i32 {
    match s {
        SandboxState::Ready => 0,
        SandboxState::NotReady => 1,
    }
}

/// The number of a sandbox's state.
pub fn map_sandbox_state(s: SandboxState) -> (r: i32)
    ensures
        r == sandbox_state_number(s),
{
    match s {
        SandboxState::Ready => 0,
        SandboxState::NotReady => 1,
    }
}

/// The sandbox state with the number. Any number but that of Ready is taken for not Ready.
pub open spec fn sandbox_state_of(n: i32) -> SandboxState {
    if n == sandbox_state_number(SandboxState::Ready) {
        SandboxState::Ready
    } else {
        SandboxState::NotReady
    }
}

/// The number of a container's state.
pub open spec fn container_state_number(s: ContainerState) -> i32 {
    match s {
        ContainerState::Created => 0,
        ContainerState::Running => 1,
        ContainerState::Exited => 2,
        ContainerState::Unknown => 3,
    }
}

/// The number of a container's state.
pub fn map_container_state(s: ContainerState) -> (r: i32)
    ensures
        r == container_state_number(s),
{
    match s {
        ContainerState::Created => 0,
        ContainerState::Running => 1,
        ContainerState::Exited => 2,
        ContainerState::Unknown => 3,
    }
}

/// The container state with the number. Any other number is taken for an unknown state.
pub open spec fn container_state_of(n: i32) -> ContainerState {
    if n == container_state_number(ContainerState::Created) {
        ContainerState::Created
    } else if n == container_state_number(ContainerState::Running) {
        ContainerState::Running
    } else if n == container_state_number(ContainerState::Exited) {
        ContainerState::Exited
    } else {
        ContainerState::Unknown
    }
}

/// A state that is told comes back as it was when it is asked for.
pub proof fn law_states_come_back(s: SandboxState, c: ContainerState)
    ensures
        sandbox_state_of(sandbox_state_number(s)) == s,
        container_state_of(container_state_number(c)) == c,
{
}

/// A name that may be left out: none if it is empty.
pub open spec fn name_given(s: Seq<char>) -> Option<Seq<char>> {
    if s.len() == 0 {
        None
    } else {
        Some(s)
    }
}

/// Which sandboxes the filter of a request asks for.
pub open spec fn sandbox_filter_of(f: Option<proto::PodSandboxFilterView>) -> SandboxFilterView {
    match f {
        None => SandboxFilterView::all(),
        Some(f) => SandboxFilterView {
            id: name_given(f.id),
            state: match f.state {
                Some(v) => Some(sandbox_state_of(v.state)),
                None => None,
            },
            label_selector: f.label_selector,
        },
    }
}

/// Which sandboxes the filter of a request asks for.
pub fn proto_sandbox_filter(f: Option<proto::PodSandboxFilter>) -> (r: SandboxFilter)
    ensures
        r@ == sandbox_filter_of(f.deep_view()),
{
    match f {
        None => SandboxFilter::default(),
        Some(f) => SandboxFilter {
            id: if f.id.as_str().is_empty() {
                None
            } else {
                Some(SandboxId(f.id))
            },
            state: match f.state {
                Some(v) => Some(
                    if v.state == 0 {
                        SandboxState::Ready
                    } else {
                        SandboxState::NotReady
                    },
                ),
                None => None,
            },
            label_selector: f.label_selector,
        },
    }
}

/// Which containers the filter of a request asks for.
pub open spec fn container_filter_of(f: Option<proto::ContainerFilterView>) -> ContainerFilterView {
    match f {
        None => ContainerFilterView::all(),
        Some(f) => ContainerFilterView {
            id: name_given(f.id),
            sandbox: name_given(f.pod_sandbox_id),
            state: match f.state {
                Some(v) => Some(container_state_of(v.state)),
                None => None,
            },
            label_selector: f.label_selector,
        },
    }
}

/// Which containers the filter of a request asks for.
pub fn proto_container_filter(f: Option<proto::ContainerFilter>) -> (r: ContainerFilter)
    ensures
        r@ == container_filter_of(f.deep_view()),
{
    match f {
        None => ContainerFilter::default(),
        Some(f) => ContainerFilter {
            id: if f.id.as_str().is_empty() {
                None
            } else {
                Some(ContainerId(f.id))
            },
            sandbox: if f.pod_sandbox_id.as_str().is_empty() {
                None
            } else {
                Some(SandboxId(f.pod_sandbox_id))
            },
            state: match f.state {
                Some(v) => Some(
                    if v.state == 0 {
                        ContainerState::Created
                    } else if v.state == 1 {
                        ContainerState::Running
                    } else if v.state == 2 {
                        ContainerState::Exited
                    } else {
                        ContainerState::Unknown
                    },
                ),
                None => None,
            },
            label_selector: f.label_selector,
        },
    }
}

/// Of which containers a request asks for the use: of all in whatever state.
pub open spec fn stats_filter_of(f: Option<proto::ContainerStatsFilterView>) -> ContainerFilterView {
    match f {
        None => ContainerFilterView::all(),
        Some(f) => ContainerFilterView {
            id: name_given(f.id),
            sandbox: name_given(f.pod_sandbox_id),
            state: None,
            label_selector: f.label_selector,
        },
    }
}

/// Of which containers a request asks for the use.
pub fn proto_stats_filter(f: Option<proto::ContainerStatsFilter>) -> (r: ContainerFilter)
    ensures
        r@ == stats_filter_of(f.deep_view()),
{
    match f {
        None => ContainerFilter::default(),
        Some(f) => ContainerFilter {
            id: if f.id.as_str().is_empty() {
                None
            } else {
                Some(ContainerId(f.id))
            },
            sandbox: if f.pod_sandbox_id.as_str().is_empty() {
                None
            } else {
                Some(SandboxId(f.pod_sandbox_id))
            },
            state: None,
            label_selector: f.label_selector,
        },
    }
}

/// What identifies a sandbox.
pub open spec fn sandbox_metadata(c: SandboxConfigView) -> proto::PodSandboxMetadataView {
    proto::PodSandboxMetadataView {
        name: c.name,
        uid: c.uid,
        namespace: c.namespace,
        attempt: c.attempt,
    }
}

fn pod_sandbox_metadata(c: &SandboxConfig) -> (r: proto::PodSandboxMetadata)
    ensures
        r@ == sandbox_metadata(c@),
{
    proto::PodSandboxMetadata {
        name: c.name.clone(),
        uid: c.uid.clone(),
        namespace: c.namespace.clone(),
        attempt: c.attempt,
    }
}

/// A sandbox as it is reported in full.
pub open spec fn sandbox_in_full(s: SandboxStatusView) -> proto::PodSandboxStatusView {
    proto::PodSandboxStatusView {
        id: s.id,
        metadata: Some(sandbox_metadata(s.config)),
        state: sandbox_state_number(s.state),
        created_at: s.created_at_nanos,
        labels: s.config.labels,
        annotations: s.config.annotations,
        runtime_handler: Seq::empty(),
    }
}

/// A sandbox as it is reported in full.
pub fn build_sandbox_status(s: &SandboxStatus) -> (r: proto::PodSandboxStatus)
    ensures
        r@ == sandbox_in_full(s@),
{
    proto::PodSandboxStatus {
        id: s.id.0.clone(),
        metadata: Some(pod_sandbox_metadata(&s.config)),
        state: map_sandbox_state(s.state),
        created_at: s.created_at_nanos,
        labels: s.config.labels.clone(),
        annotations: s.config.annotations.clone(),
        runtime_handler: String::new(),
    }
}

/// A sandbox as it is listed.
pub open spec fn sandbox_listed(s: SandboxStatusView) -> proto::PodSandboxView {
    proto::PodSandboxView {
        id: s.id,
        metadata: Some(sandbox_metadata(s.config)),
        state: sandbox_state_number(s.state),
        created_at: s.created_at_nanos,
        labels: s.config.labels,
        annotations: s.config.annotations,
        runtime_handler: Seq::empty(),
    }
}

/// A sandbox as it is listed.
pub fn build_pod_sandbox(s: &SandboxStatus) -> (r: proto::PodSandbox)
    ensures
        r@ == sandbox_listed(s@),
{
    proto::PodSandbox {
        id: s.id.0.clone(),
        metadata: Some(pod_sandbox_metadata(&s.config)),
        state: map_sandbox_state(s.state),
        created_at: s.created_at_nanos,
        labels: s.config.labels.clone(),
        annotations: s.config.annotations.clone(),
        runtime_handler: String::new(),
    }
}

/// What identifies a container.
pub open spec fn container_metadata(c: ContainerConfigView) -> proto::ContainerMetadataView {
    proto::ContainerMetadataView { name: c.name, attempt: c.attempt }
}

fn metadata_of(c: &ContainerConfig) -> (r: proto::ContainerMetadata)
    ensures
        r@ == container_metadata(c@),
{
    proto::ContainerMetadata { name: c.name.clone(), attempt: c.attempt }
}

/// A mount as it is reported.
pub open spec fn mount_told(m: MountView) -> proto::MountView {
    proto::MountView {
        container_path: m.container_path,
        host_path: m.host_path,
        readonly: m.readonly,
    }
}

fn build_mounts(mounts: &Vec<Mount>) -> (r: Vec<proto::Mount>)
    ensures
        r.deep_view() == mounts.deep_view().map_values(|m: MountView| mount_told(m)),
{
    let mut r: Vec<proto::Mount> = Vec::new();
    let mut i: usize = 0;
    while i < mounts.len()
        invariant
            i <= mounts@.len(),
            r@.len() == i,
            forall|j: int| 0 <= j < i ==> (#[trigger] r@[j])@ == mount_told(mounts@[j]@),
        decreases mounts@.len() - i,
    {
        let m = &mounts[i];
        r.push(
            proto::Mount {
                container_path: m.container_path.clone(),
                host_path: m.host_path.clone(),
                readonly: m.readonly,
            },
        );
        i = i + 1;
    }
    assert(r.deep_view() =~= mounts.deep_view().map_values(|m: MountView| mount_told(m)));
    r
}

/// A container as it is reported in full.
pub open spec fn container_in_full(s: ContainerStatusView) -> proto::ContainerStatusView {
    proto::ContainerStatusView {
        id: s.id,
        metadata: Some(container_metadata(s.config)),
        state: container_state_number(s.state),
        created_at: s.created_at_nanos,
        started_at: s.started_at_nanos,
        finished_at: s.finished_at_nanos,
        exit_code: s.exit_code,
        image: Some(proto::ImageSpecView { image: s.config.image_ref }),
        image_ref: s.config.image_ref,
        image_id: s.config.image_ref,
        reason: s.reason,
        message: s.message,
        labels: s.config.labels,
        annotations: s.config.annotations,
        mounts: s.config.mounts.map_values(|m: MountView| mount_told(m)),
        log_path: s.config.log_path,
        stop_signal: 0,
    }
}

/// A container as it is reported in full.
pub fn build_container_status(s: &ContainerStatus) -> (r: proto::ContainerStatus)
    ensures
        r@ == container_in_full(s@),
{
    proto::ContainerStatus {
        id: s.id.0.clone(),
        metadata: Some(metadata_of(&s.config)),
        state: map_container_state(s.state),
        created_at: s.created_at_nanos,
        started_at: s.started_at_nanos,
        finished_at: s.finished_at_nanos,
        exit_code: s.exit_code,
        image: Some(proto::ImageSpec { image: s.config.image_ref.clone() }),
        image_ref: s.config.image_ref.clone(),
        image_id: s.config.image_ref.clone(),
        reason: s.reason.clone(),
        message: s.message.clone(),
        labels: s.config.labels.clone(),
        annotations: s.config.annotations.clone(),
        mounts: build_mounts(&s.config.mounts),
        log_path: s.config.log_path.clone(),
        stop_signal: 0,
    }
}

/// A container as it is listed.
pub open spec fn container_listed(s: ContainerStatusView) -> proto::ContainerView {
    proto::ContainerView {
        id: s.id,
        pod_sandbox_id: s.sandbox,
        metadata: Some(container_metadata(s.config)),
        image: Some(proto::ImageSpecView { image: s.config.image_ref }),
        image_ref: s.config.image_ref,
        image_id: s.config.image_ref,
        state: container_state_number(s.state),
        created_at: s.created_at_nanos,
        labels: s.config.labels,
        annotations: s.config.annotations,
    }
}

/// A container as it is listed.
pub fn build_container(s: &ContainerStatus) -> (r: proto::Container)
    ensures
        r@ == container_listed(s@),
{
    proto::Container {
        id: s.id.0.clone(),
        pod_sandbox_id: s.sandbox.0.clone(),
        metadata: Some(metadata_of(&s.config)),
        image: Some(proto::ImageSpec { image: s.config.image_ref.clone() }),
        image_ref: s.config.image_ref.clone(),
        image_id: s.config.image_ref.clone(),
        state: map_container_state(s.state),
        created_at: s.created_at_nanos,
        labels: s.config.labels.clone(),
        annotations: s.config.annotations.clone(),
    }
}

/// What a container uses, with what is known of the container itself.
pub open spec fn stats_told(
    rec: ContainerStatsRecView,
    status: Option<ContainerStatusView>,
) -> proto::ContainerStatsView {
    proto::ContainerStatsView {
        attributes: Some(
            proto::ContainerAttributesView {
                id: rec.id,
                metadata: match status {
                    Some(s) => Some(container_metadata(s.config)),
                    None => None,
                },
                labels: match status {
                    Some(s) => s.config.labels,
                    None => Map::empty(),
                },
                annotations: match status {
                    Some(s) => s.config.annotations,
                    None => Map::empty(),
                },
            },
        ),
        cpu: Some(
            proto::CpuUsageView {
                timestamp: rec.timestamp_nanos,
                usage_core_nano_seconds: Some(
                    proto::UInt64ValueView { value: rec.cpu_usage_core_nanos },
                ),
            },
        ),
        memory: Some(
            proto::MemoryUsageView {
                timestamp: rec.timestamp_nanos,
                working_set_bytes: Some(
                    proto::UInt64ValueView { value: rec.memory_working_set_bytes },
                ),
            },
        ),
        writable_layer: Some(
            proto::FilesystemUsageView {
                timestamp: rec.timestamp_nanos,
                used_bytes: Some(proto::UInt64ValueView { value: 0 }),
                inodes_used: Some(proto::UInt64ValueView { value: 0 }),
            },
        ),
    }
}

/// What the container is, if it is known.
pub open spec fn status_view(status: Option<&ContainerStatus>) -> Option<ContainerStatusView> {
    match status {
        Some(s) => Some(s@),
        None => None,
    }
}

/// What a container uses, with what is known of the container itself.
pub fn build_container_stats(rec: &ContainerStatsRec, status: Option<&ContainerStatus>) -> (r:
    proto::ContainerStats)
    ensures
        r@ == stats_told(rec@, status_view(status)),
{
    let attributes = match status {
        Some(s) => proto::ContainerAttributes {
            id: rec.id.0.clone(),
            metadata: Some(metadata_of(&s.config)),
            labels: s.config.labels.clone(),
            annotations: s.config.annotations.clone(),
        },
        None => proto::ContainerAttributes {
            id: rec.id.0.clone(),
            metadata: None,
            labels: TextMap::new(),
            annotations: TextMap::new(),
        },
    };
    proto::ContainerStats {
        attributes: Some(attributes),
        cpu: Some(
            proto::CpuUsage {
                timestamp: rec.timestamp_nanos,
                usage_core_nano_seconds: Some(
                    proto::UInt64Value { value: rec.cpu_usage_core_nanos },
                ),
            },
        ),
        memory: Some(
            proto::MemoryUsage {
                timestamp: rec.timestamp_nanos,
                working_set_bytes: Some(
                    proto::UInt64Value { value: rec.memory_working_set_bytes },
                ),
            },
        ),
        writable_layer: Some(
            proto::FilesystemUsage {
                timestamp: rec.timestamp_nanos,
                used_bytes: Some(proto::UInt64Value { value: 0 }),
                inodes_used: Some(proto::UInt64Value { value: 0 }),
            },
        ),
    }
}

/// A container that is listed agrees in everything with the same container reported in full, and its
/// state reads back as the state that it is in.
pub proof fn law_listed_container_agrees_with_the_full_report(s: ContainerStatusView)
    ensures
        ({
            let listed = container_listed(s);
            let full = container_in_full(s);
            &&& listed.id == full.id
            &&& listed.metadata == full.metadata
            &&& listed.state == full.state
            &&& listed.created_at == full.created_at
            &&& listed.image == full.image
            &&& listed.image_ref == full.image_ref
            &&& listed.image_id == full.image_id
            &&& listed.labels == full.labels
            &&& listed.annotations == full.annotations
            &&& listed.id == s.id && listed.pod_sandbox_id == s.sandbox
            &&& container_state_of(listed.state) == s.state
            &&& container_state_of(full.state) == s.state
        }),
{
}

/// A sandbox that is listed agrees in everything with the same sandbox reported in full, and its
/// state reads back as the state that it is in.
pub proof fn law_listed_sandbox_agrees_with_the_full_report(s: SandboxStatusView)
    ensures
        ({
            let listed = sandbox_listed(s);
            let full = sandbox_in_full(s);
            &&& listed.id == full.id && listed.id == s.id
            &&& listed.metadata == full.metadata
            &&& listed.state == full.state
            &&& listed.created_at == full.created_at
            &&& listed.labels == full.labels
            &&& listed.annotations == full.annotations
            &&& listed.runtime_handler == full.runtime_handler
            &&& sandbox_state_of(listed.state) == s.state
            &&& sandbox_state_of(full.state) == s.state
        }),
{
}

/// The states have the numbers that the protocol gives them, both ways.
pub proof fn law_states_have_the_protocols_numbers(n: i32)
    ensures
        sandbox_state_number(SandboxState::Ready) == 0,
        sandbox_state_number(SandboxState::NotReady) == 1,
        container_state_number(ContainerState::Created) == 0,
        container_state_number(ContainerState::Running) == 1,
        container_state_number(ContainerState::Exited) == 2,
        container_state_number(ContainerState::Unknown) == 3,
        0 <= n <= 3 ==> container_state_number(container_state_of(n)) == n,
        n < 0 || n > 3 ==> container_state_of(n) == ContainerState::Unknown,
        0 <= n <= 1 ==> sandbox_state_number(sandbox_state_of(n)) == n,
        n < 0 || n > 1 ==> sandbox_state_of(n) == SandboxState::NotReady,
{
}

/// Two containers are told alike in full only if they are alike in all that is told: nothing of what
/// the backend knows of a container is lost or taken from elsewhere.
pub proof fn law_full_report_tells_containers_apart(a: ContainerStatusView, b: ContainerStatusView)
    requires
        container_in_full(a) == container_in_full(b),
    ensures
        a.id == b.id,
        a.state == b.state,
        a.created_at_nanos == b.created_at_nanos,
        a.started_at_nanos == b.started_at_nanos,
        a.finished_at_nanos == b.finished_at_nanos,
        a.exit_code == b.exit_code,
        a.reason == b.reason,
        a.message == b.message,
        a.config.name == b.config.name,
        a.config.attempt == b.config.attempt,
        a.config.image_ref == b.config.image_ref,
        a.config.labels == b.config.labels,
        a.config.annotations == b.config.annotations,
        a.config.mounts == b.config.mounts,
        a.config.log_path == b.config.log_path,
{
    let told = |m: MountView| mount_told(m);
    assert(a.config.mounts.map_values(told).len() == b.config.mounts.map_values(told).len());
    assert forall|i: int| 0 <= i < a.config.mounts.len() implies a.config.mounts[i]
        == b.config.mounts[i] by {
        assert(a.config.mounts.map_values(told)[i] == b.config.mounts.map_values(told)[i]);
        assert(mount_told(a.config.mounts[i]) == mount_told(b.config.mounts[i]));
    }
    assert(a.config.mounts =~= b.config.mounts);
    law_states_come_back(SandboxState::Ready, a.state);
    law_states_come_back(SandboxState::Ready, b.state);
}

/// The times of a container, how it ended, and why, are told each in its own place.
pub proof fn law_full_report_has_everything_in_its_place(s: ContainerStatusView)
    ensures
        ({
            let full = container_in_full(s);
            &&& full.created_at == s.created_at_nanos
            &&& full.started_at == s.started_at_nanos
            &&& full.finished_at == s.finished_at_nanos
            &&& full.exit_code == s.exit_code
            &&& full.reason == s.reason
            &&& full.message == s.message
            &&& full.labels == s.config.labels
            &&& full.annotations == s.config.annotations
            &&& full.log_path == s.config.log_path
            &&& full.image_ref == s.config.image_ref && full.image_id == s.config.image_ref
            &&& full.image matches Some(i) && i.image == s.config.image_ref
            &&& full.metadata matches Some(m) && m.name == s.config.name && m.attempt
                == s.config.attempt
            &&& full.mounts.len() == s.config.mounts.len()
            &&& forall|i: int|
                0 <= i < s.config.mounts.len() ==> (#[trigger] full.mounts[i]).host_path
                    == s.config.mounts[i].host_path && full.mounts[i].container_path
                    == s.config.mounts[i].container_path && full.mounts[i].readonly
                    == s.config.mounts[i].readonly
        }),
{
}

/// The same of a sandbox.
pub proof fn law_sandbox_report_has_everything_in_its_place(s: SandboxStatusView)
    ensures
        ({
            let full = sandbox_in_full(s);
            &&& full.created_at == s.created_at_nanos
            &&& full.labels == s.config.labels
            &&& full.annotations == s.config.annotations
            &&& full.metadata matches Some(m) && m.name == s.config.name && m.uid == s.config.uid
                && m.namespace == s.config.namespace && m.attempt == s.config.attempt
            &&& full.runtime_handler == Seq::<char>::empty()
        }),
{
}

/// A filter without a name, a state or labels lets everything through; one with some lets through
/// exactly what has them. So with the filter of a request the backend lists the sandboxes that the
/// request means.
pub proof fn law_sandbox_filter_means_what_it_says(
    rec: crate::fake::record::SandboxRecordView,
    f: proto::PodSandboxFilterView,
)
    ensures
        crate::fake::sandbox::sandbox_picked(rec, sandbox_filter_of(None)),
        crate::fake::sandbox::sandbox_picked(rec, sandbox_filter_of(Some(f))) <==> {
            &&& f.id.len() == 0 || f.id == rec.id
            &&& f.state matches Some(v) ==> (v.state == 0 <==> rec.state == SandboxState::Ready)
            &&& forall|k: Seq<char>| #[trigger]
                f.label_selector.dom().contains(k) ==> rec.config.labels.dom().contains(k)
                    && rec.config.labels[k] == f.label_selector[k]
        },
{
}

/// The same of containers, which are also picked by the sandbox that they are in.
pub proof fn law_container_filter_means_what_it_says(
    rec: crate::fake::record::ContainerRecordView,
    f: proto::ContainerFilterView,
)
    requires
        f.state matches Some(v) ==> 0 <= v.state <= 3,
    ensures
        crate::fake::container::container_picked(rec, container_filter_of(None)),
        crate::fake::container::container_picked(rec, container_filter_of(Some(f))) <==> {
            &&& f.id.len() == 0 || f.id == rec.id
            &&& f.pod_sandbox_id.len() == 0 || f.pod_sandbox_id == rec.sandbox
            &&& f.state matches Some(v) ==> v.state == container_state_number(rec.state)
            &&& forall|k: Seq<char>| #[trigger]
                f.label_selector.dom().contains(k) ==> rec.config.labels.dom().contains(k)
                    && rec.config.labels[k] == f.label_selector[k]
        },
{
}

/// What containers use is told of the same containers that would be listed, whatever their state.
pub proof fn law_use_is_told_of_what_would_be_listed(
    rec: crate::fake::record::ContainerRecordView,
    f: proto::ContainerStatsFilterView,
)
    ensures
        crate::fake::container::container_picked(rec, stats_filter_of(None)),
        crate::fake::container::container_picked(rec, stats_filter_of(Some(f)))
            <==> crate::fake::container::container_picked(
            rec,
            container_filter_of(
                Some(
                    proto::ContainerFilterView {
                        id: f.id,
                        state: None,
                        pod_sandbox_id: f.pod_sandbox_id,
                        label_selector: f.label_selector,
                    },
                ),
            ),
        ),
{
}

/// What a container uses is told with the name of the container and the time at which it was taken,
/// and with what a list would say of the container, if it is known; nothing is on its own layer.
pub proof fn law_use_is_told_with_the_container(
    rec: ContainerStatsRecView,
    status: Option<ContainerStatusView>,
)
    ensures
        ({
            let told = stats_told(rec, status);
            &&& told.cpu matches Some(c) && c.timestamp == rec.timestamp_nanos
                && (c.usage_core_nano_seconds matches Some(v) && v.value
                == rec.cpu_usage_core_nanos)
            &&& told.memory matches Some(m) && m.timestamp == rec.timestamp_nanos
                && (m.working_set_bytes matches Some(v) && v.value == rec.memory_working_set_bytes)
            &&& told.writable_layer matches Some(w) && w.timestamp == rec.timestamp_nanos
                && (w.used_bytes matches Some(v) && v.value == 0) && (w.inodes_used matches Some(v)
                && v.value == 0)
            &&& told.attributes matches Some(a) && a.id == rec.id && (match status {
                Some(s) => a.metadata == container_listed(s).metadata && a.labels
                    == container_listed(s).labels && a.annotations
                    == container_listed(s).annotations && a.metadata is Some,
                None => a.metadata is None && a.labels.dom() == Set::<Seq<char>>::empty()
                    && a.annotations.dom() == Set::<Seq<char>>::empty(),
            })
        }),
{
}

} // verus!
