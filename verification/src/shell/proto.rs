//! The messages of the runtime interface, as far as they are read or filled here. What a message
//! could say besides is left unset.

use crate::text_map::TextMap;
use vstd::prelude::*;

verus! {

/// The states of a sandbox, in the order of their numbers.
#[derive(Clone, Copy, Debug, PartialEq, Eq, Structural)]
pub enum PodSandboxState {
    SandboxReady,
    SandboxNotready,
}

/// The states of a container, in the order of their numbers.
#[derive(Clone, Copy, Debug, PartialEq, Eq, Structural)]
pub enum ContainerState {
    ContainerCreated,
    ContainerRunning,
    ContainerExited,
    ContainerUnknown,
}

/// Asks for the version.
#[derive(Debug, PartialEq, Eq)]
pub struct VersionRequest {
    pub version: String,
}

/// What a [`VersionRequest`] says.
#[verifier::ext_equal]
pub struct VersionRequestView {
    pub version: Seq<char>,
}

impl View for VersionRequest {
    type V = VersionRequestView;

    open spec fn view(&self) -> VersionRequestView {
        VersionRequestView {
            version: self.version@,
        }
    }
}

impl DeepView for VersionRequest {
    type V = VersionRequestView;

    open spec fn deep_view(&self) -> VersionRequestView {
        self@
    }
}

/// Tells the version.
#[derive(Debug, PartialEq, Eq)]
pub struct VersionResponse {
    pub version: String,
    pub runtime_name: String,
    pub runtime_version: String,
    pub runtime_api_version: String,
}

/// What a [`VersionResponse`] says.
#[verifier::ext_equal]
pub struct VersionResponseView {
    pub version: Seq<char>,
    pub runtime_name: Seq<char>,
    pub runtime_version: Seq<char>,
    pub runtime_api_version: Seq<char>,
}

impl View for VersionResponse {
    type V = VersionResponseView;

    open spec fn view(&self) -> VersionResponseView {
        VersionResponseView {
            version: self.version@,
            runtime_name: self.runtime_name@,
            runtime_version: self.runtime_version@,
            runtime_api_version: self.runtime_api_version@,
        }
    }
}

impl DeepView for VersionResponse {
    type V = VersionResponseView;

    open spec fn deep_view(&self) -> VersionResponseView {
        self@
    }
}

/// One condition of the runtime.
#[derive(Debug, PartialEq, Eq)]
pub struct RuntimeCondition {
    /// What it is about.
    pub kind: String,
    pub status: bool,
    pub reason: String,
    pub message: String,
}

/// What a [`RuntimeCondition`] says.
#[verifier::ext_equal]
pub struct RuntimeConditionView {
    pub kind: Seq<char>,
    pub status: bool,
    pub reason: Seq<char>,
    pub message: Seq<char>,
}

impl View for RuntimeCondition {
    type V = RuntimeConditionView;

    open spec fn view(&self) -> RuntimeConditionView {
        RuntimeConditionView {
            kind: self.kind@,
            status: self.status,
            reason: self.reason@,
            message: self.message@,
        }
    }
}

impl DeepView for RuntimeCondition {
    type V = RuntimeConditionView;

    open spec fn deep_view(&self) -> RuntimeConditionView {
        self@
    }
}

/// Tells the conditions of the runtime.
#[derive(Debug, PartialEq, Eq)]
pub struct StatusResponse {
    pub conditions: Vec<RuntimeCondition>,
}

/// What a [`StatusResponse`] says.
#[verifier::ext_equal]
pub struct StatusResponseView {
    pub conditions: Seq<RuntimeConditionView>,
}

impl View for StatusResponse {
    type V = StatusResponseView;

    open spec fn view(&self) -> StatusResponseView {
        StatusResponseView {
            conditions: self.conditions.deep_view(),
        }
    }
}

impl DeepView for StatusResponse {
    type V = StatusResponseView;

    open spec fn deep_view(&self) -> StatusResponseView {
        self@
    }
}

/// What identifies a sandbox to its owner.
#[derive(Debug, PartialEq, Eq)]
pub struct PodSandboxMetadata {
    pub name: String,
    pub uid: String,
    pub namespace: String,
    pub attempt: u32,
}

/// What a [`PodSandboxMetadata`] says.
#[verifier::ext_equal]
pub struct PodSandboxMetadataView {
    pub name: Seq<char>,
    pub uid: Seq<char>,
    pub namespace: Seq<char>,
    pub attempt: u32,
}

impl View for PodSandboxMetadata {
    type V = PodSandboxMetadataView;

    open spec fn view(&self) -> PodSandboxMetadataView {
        PodSandboxMetadataView {
            name: self.name@,
            uid: self.uid@,
            namespace: self.namespace@,
            attempt: self.attempt,
        }
    }
}

impl DeepView for PodSandboxMetadata {
    type V = PodSandboxMetadataView;

    open spec fn deep_view(&self) -> PodSandboxMetadataView {
        self@
    }
}

/// How a sandbox is wanted.
#[derive(Debug, PartialEq, Eq)]
pub struct PodSandboxConfig {
    pub metadata: Option<PodSandboxMetadata>,
    pub labels: TextMap<String>,
    pub annotations: TextMap<String>,
    pub log_directory: String,
}

/// What a [`PodSandboxConfig`] says.
#[verifier::ext_equal]
pub struct PodSandboxConfigView {
    pub metadata: Option<PodSandboxMetadataView>,
    pub labels: Map<Seq<char>, Seq<char>>,
    pub annotations: Map<Seq<char>, Seq<char>>,
    pub log_directory: Seq<char>,
}

impl View for PodSandboxConfig {
    type V = PodSandboxConfigView;

    open spec fn view(&self) -> PodSandboxConfigView {
        PodSandboxConfigView {
            metadata: self.metadata.deep_view(),
            labels: self.labels@,
            annotations: self.annotations@,
            log_directory: self.log_directory@,
        }
    }
}

impl DeepView for PodSandboxConfig {
    type V = PodSandboxConfigView;

    open spec fn deep_view(&self) -> PodSandboxConfigView {
        self@
    }
}

/// A sandbox in full.
#[derive(Debug, PartialEq, Eq)]
pub struct PodSandboxStatus {
    pub id: String,
    pub metadata: Option<PodSandboxMetadata>,
    pub state: i32,
    pub created_at: i64,
    pub labels: TextMap<String>,
    pub annotations: TextMap<String>,
    pub runtime_handler: String,
}

/// What a [`PodSandboxStatus`] says.
#[verifier::ext_equal]
pub struct PodSandboxStatusView {
    pub id: Seq<char>,
    pub metadata: Option<PodSandboxMetadataView>,
    pub state: i32,
    pub created_at: i64,
    pub labels: Map<Seq<char>, Seq<char>>,
    pub annotations: Map<Seq<char>, Seq<char>>,
    pub runtime_handler: Seq<char>,
}

impl View for PodSandboxStatus {
    type V = PodSandboxStatusView;

    open spec fn view(&self) -> PodSandboxStatusView {
        PodSandboxStatusView {
            id: self.id@,
            metadata: self.metadata.deep_view(),
            state: self.state,
            created_at: self.created_at,
            labels: self.labels@,
            annotations: self.annotations@,
            runtime_handler: self.runtime_handler@,
        }
    }
}

impl DeepView for PodSandboxStatus {
    type V = PodSandboxStatusView;

    open spec fn deep_view(&self) -> PodSandboxStatusView {
        self@
    }
}

/// A sandbox in a list.
#[derive(Debug, PartialEq, Eq)]
pub struct PodSandbox {
    pub id: String,
    pub metadata: Option<PodSandboxMetadata>,
    pub state: i32,
    pub created_at: i64,
    pub labels: TextMap<String>,
    pub annotations: TextMap<String>,
    pub runtime_handler: String,
}

/// What a [`PodSandbox`] says.
#[verifier::ext_equal]
pub struct PodSandboxView {
    pub id: Seq<char>,
    pub metadata: Option<PodSandboxMetadataView>,
    pub state: i32,
    pub created_at: i64,
    pub labels: Map<Seq<char>, Seq<char>>,
    pub annotations: Map<Seq<char>, Seq<char>>,
    pub runtime_handler: Seq<char>,
}

impl View for PodSandbox {
    type V = PodSandboxView;

    open spec fn view(&self) -> PodSandboxView {
        PodSandboxView {
            id: self.id@,
            metadata: self.metadata.deep_view(),
            state: self.state,
            created_at: self.created_at,
            labels: self.labels@,
            annotations: self.annotations@,
            runtime_handler: self.runtime_handler@,
        }
    }
}

impl DeepView for PodSandbox {
    type V = PodSandboxView;

    open spec fn deep_view(&self) -> PodSandboxView {
        self@
    }
}

/// A state to look for.
#[derive(Debug, PartialEq, Eq)]
pub struct PodSandboxStateValue {
    pub state: i32,
}

/// What a [`PodSandboxStateValue`] says.
#[verifier::ext_equal]
pub struct PodSandboxStateValueView {
    pub state: i32,
}

impl View for PodSandboxStateValue {
    type V = PodSandboxStateValueView;

    open spec fn view(&self) -> PodSandboxStateValueView {
        PodSandboxStateValueView {
            state: self.state,
        }
    }
}

impl DeepView for PodSandboxStateValue {
    type V = PodSandboxStateValueView;

    open spec fn deep_view(&self) -> PodSandboxStateValueView {
        self@
    }
}

/// Which sandboxes to list.
#[derive(Debug, PartialEq, Eq)]
pub struct PodSandboxFilter {
    pub id: String,
    pub state: Option<PodSandboxStateValue>,
    pub label_selector: TextMap<String>,
}

/// What a [`PodSandboxFilter`] says.
#[verifier::ext_equal]
pub struct PodSandboxFilterView {
    pub id: Seq<char>,
    pub state: Option<PodSandboxStateValueView>,
    pub label_selector: Map<Seq<char>, Seq<char>>,
}

impl View for PodSandboxFilter {
    type V = PodSandboxFilterView;

    open spec fn view(&self) -> PodSandboxFilterView {
        PodSandboxFilterView {
            id: self.id@,
            state: self.state.deep_view(),
            label_selector: self.label_selector@,
        }
    }
}

impl DeepView for PodSandboxFilter {
    type V = PodSandboxFilterView;

    open spec fn deep_view(&self) -> PodSandboxFilterView {
        self@
    }
}

/// What identifies a container to its owner.
#[derive(Debug, PartialEq, Eq)]
pub struct ContainerMetadata {
    pub name: String,
    pub attempt: u32,
}

/// What a [`ContainerMetadata`] says.
#[verifier::ext_equal]
pub struct ContainerMetadataView {
    pub name: Seq<char>,
    pub attempt: u32,
}

impl View for ContainerMetadata {
    type V = ContainerMetadataView;

    open spec fn view(&self) -> ContainerMetadataView {
        ContainerMetadataView {
            name: self.name@,
            attempt: self.attempt,
        }
    }
}

impl DeepView for ContainerMetadata {
    type V = ContainerMetadataView;

    open spec fn deep_view(&self) -> ContainerMetadataView {
        self@
    }
}

/// Which image.
#[derive(Debug, PartialEq, Eq)]
pub struct ImageSpec {
    pub image: String,
}

/// What an [`ImageSpec`] says.
#[verifier::ext_equal]
pub struct ImageSpecView {
    pub image: Seq<char>,
}

impl View for ImageSpec {
    type V = ImageSpecView;

    open spec fn view(&self) -> ImageSpecView {
        ImageSpecView {
            image: self.image@,
        }
    }
}

impl DeepView for ImageSpec {
    type V = ImageSpecView;

    open spec fn deep_view(&self) -> ImageSpecView {
        self@
    }
}

/// A variable of the environment.
#[derive(Debug, PartialEq, Eq)]
pub struct KeyValue {
    pub key: String,
    pub value: String,
}

/// What a [`KeyValue`] says.
#[verifier::ext_equal]
pub struct KeyValueView {
    pub key: Seq<char>,
    pub value: Seq<char>,
}

impl View for KeyValue {
    type V = KeyValueView;

    open spec fn view(&self) -> KeyValueView {
        KeyValueView {
            key: self.key@,
            value: self.value@,
        }
    }
}

impl DeepView for KeyValue {
    type V = KeyValueView;

    open spec fn deep_view(&self) -> KeyValueView {
        self@
    }
}

/// A host path in a container.
#[derive(Debug, PartialEq, Eq)]
pub struct Mount {
    pub container_path: String,
    pub host_path: String,
    pub readonly: bool,
}

/// What a [`Mount`] says.
#[verifier::ext_equal]
pub struct MountView {
    pub container_path: Seq<char>,
    pub host_path: Seq<char>,
    pub readonly: bool,
}

impl View for Mount {
    type V = MountView;

    open spec fn view(&self) -> MountView {
        MountView {
            container_path: self.container_path@,
            host_path: self.host_path@,
            readonly: self.readonly,
        }
    }
}

impl DeepView for Mount {
    type V = MountView;

    open spec fn deep_view(&self) -> MountView {
        self@
    }
}

/// How a container is wanted.
#[derive(Debug, PartialEq, Eq)]
pub struct ContainerConfig {
    pub metadata: Option<ContainerMetadata>,
    pub image: Option<ImageSpec>,
    pub command: Vec<String>,
    pub args: Vec<String>,
    pub working_dir: String,
    pub envs: Vec<KeyValue>,
    pub mounts: Vec<Mount>,
    pub labels: TextMap<String>,
    pub annotations: TextMap<String>,
    pub log_path: String,
}

/// What a [`ContainerConfig`] says.
#[verifier::ext_equal]
pub struct ContainerConfigView {
    pub metadata: Option<ContainerMetadataView>,
    pub image: Option<ImageSpecView>,
    pub command: Seq<Seq<char>>,
    pub args: Seq<Seq<char>>,
    pub working_dir: Seq<char>,
    pub envs: Seq<KeyValueView>,
    pub mounts: Seq<MountView>,
    pub labels: Map<Seq<char>, Seq<char>>,
    pub annotations: Map<Seq<char>, Seq<char>>,
    pub log_path: Seq<char>,
}

impl View for ContainerConfig {
    type V = ContainerConfigView;

    open spec fn view(&self) -> ContainerConfigView {
        ContainerConfigView {
            metadata: self.metadata.deep_view(),
            image: self.image.deep_view(),
            command: self.command.deep_view(),
            args: self.args.deep_view(),
            working_dir: self.working_dir@,
            envs: self.envs.deep_view(),
            mounts: self.mounts.deep_view(),
            labels: self.labels@,
            annotations: self.annotations@,
            log_path: self.log_path@,
        }
    }
}

impl DeepView for ContainerConfig {
    type V = ContainerConfigView;

    open spec fn deep_view(&self) -> ContainerConfigView {
        self@
    }
}

/// A state to look for.
#[derive(Debug, PartialEq, Eq)]
pub struct ContainerStateValue {
    pub state: i32,
}

/// What a [`ContainerStateValue`] says.
#[verifier::ext_equal]
pub struct ContainerStateValueView {
    pub state: i32,
}

impl View for ContainerStateValue {
    type V = ContainerStateValueView;

    open spec fn view(&self) -> ContainerStateValueView {
        ContainerStateValueView {
            state: self.state,
        }
    }
}

impl DeepView for ContainerStateValue {
    type V = ContainerStateValueView;

    open spec fn deep_view(&self) -> ContainerStateValueView {
        self@
    }
}

/// Which containers to list.
#[derive(Debug, PartialEq, Eq)]
pub struct ContainerFilter {
    pub id: String,
    pub state: Option<ContainerStateValue>,
    pub pod_sandbox_id: String,
    pub label_selector: TextMap<String>,
}

/// What a [`ContainerFilter`] says.
#[verifier::ext_equal]
pub struct ContainerFilterView {
    pub id: Seq<char>,
    pub state: Option<ContainerStateValueView>,
    pub pod_sandbox_id: Seq<char>,
    pub label_selector: Map<Seq<char>, Seq<char>>,
}

impl View for ContainerFilter {
    type V = ContainerFilterView;

    open spec fn view(&self) -> ContainerFilterView {
        ContainerFilterView {
            id: self.id@,
            state: self.state.deep_view(),
            pod_sandbox_id: self.pod_sandbox_id@,
            label_selector: self.label_selector@,
        }
    }
}

impl DeepView for ContainerFilter {
    type V = ContainerFilterView;

    open spec fn deep_view(&self) -> ContainerFilterView {
        self@
    }
}

/// A container in a list.
#[derive(Debug, PartialEq, Eq)]
pub struct Container {
    pub id: String,
    pub pod_sandbox_id: String,
    pub metadata: Option<ContainerMetadata>,
    pub image: Option<ImageSpec>,
    pub image_ref: String,
    pub image_id: String,
    pub state: i32,
    pub created_at: i64,
    pub labels: TextMap<String>,
    pub annotations: TextMap<String>,
}

/// What a [`Container`] says.
#[verifier::ext_equal]
pub struct ContainerView {
    pub id: Seq<char>,
    pub pod_sandbox_id: Seq<char>,
    pub metadata: Option<ContainerMetadataView>,
    pub image: Option<ImageSpecView>,
    pub image_ref: Seq<char>,
    pub image_id: Seq<char>,
    pub state: i32,
    pub created_at: i64,
    pub labels: Map<Seq<char>, Seq<char>>,
    pub annotations: Map<Seq<char>, Seq<char>>,
}

impl View for Container {
    type V = ContainerView;

    open spec fn view(&self) -> ContainerView {
        ContainerView {
            id: self.id@,
            pod_sandbox_id: self.pod_sandbox_id@,
            metadata: self.metadata.deep_view(),
            image: self.image.deep_view(),
            image_ref: self.image_ref@,
            image_id: self.image_id@,
            state: self.state,
            created_at: self.created_at,
            labels: self.labels@,
            annotations: self.annotations@,
        }
    }
}

impl DeepView for Container {
    type V = ContainerView;

    open spec fn deep_view(&self) -> ContainerView {
        self@
    }
}

/// A container in full.
#[derive(Debug, PartialEq, Eq)]
pub struct ContainerStatus {
    pub id: String,
    pub metadata: Option<ContainerMetadata>,
    pub state: i32,
    pub created_at: i64,
    pub started_at: i64,
    pub finished_at: i64,
    pub exit_code: i32,
    pub image: Option<ImageSpec>,
    pub image_ref: String,
    pub image_id: String,
    pub reason: String,
    pub message: String,
    pub labels: TextMap<String>,
    pub annotations: TextMap<String>,
    pub mounts: Vec<Mount>,
    pub log_path: String,
    pub stop_signal: i32,
}

/// What a [`ContainerStatus`] says.
#[verifier::ext_equal]
pub struct ContainerStatusView {
    pub id: Seq<char>,
    pub metadata: Option<ContainerMetadataView>,
    pub state: i32,
    pub created_at: i64,
    pub started_at: i64,
    pub finished_at: i64,
    pub exit_code: i32,
    pub image: Option<ImageSpecView>,
    pub image_ref: Seq<char>,
    pub image_id: Seq<char>,
    pub reason: Seq<char>,
    pub message: Seq<char>,
    pub labels: Map<Seq<char>, Seq<char>>,
    pub annotations: Map<Seq<char>, Seq<char>>,
    pub mounts: Seq<MountView>,
    pub log_path: Seq<char>,
    pub stop_signal: i32,
}

impl View for ContainerStatus {
    type V = ContainerStatusView;

    open spec fn view(&self) -> ContainerStatusView {
        ContainerStatusView {
            id: self.id@,
            metadata: self.metadata.deep_view(),
            state: self.state,
            created_at: self.created_at,
            started_at: self.started_at,
            finished_at: self.finished_at,
            exit_code: self.exit_code,
            image: self.image.deep_view(),
            image_ref: self.image_ref@,
            image_id: self.image_id@,
            reason: self.reason@,
            message: self.message@,
            labels: self.labels@,
            annotations: self.annotations@,
            mounts: self.mounts.deep_view(),
            log_path: self.log_path@,
            stop_signal: self.stop_signal,
        }
    }
}

impl DeepView for ContainerStatus {
    type V = ContainerStatusView;

    open spec fn deep_view(&self) -> ContainerStatusView {
        self@
    }
}

/// Of which containers to tell the use.
#[derive(Debug, PartialEq, Eq)]
pub struct ContainerStatsFilter {
    pub id: String,
    pub pod_sandbox_id: String,
    pub label_selector: TextMap<String>,
}

/// What a [`ContainerStatsFilter`] says.
#[verifier::ext_equal]
pub struct ContainerStatsFilterView {
    pub id: Seq<char>,
    pub pod_sandbox_id: Seq<char>,
    pub label_selector: Map<Seq<char>, Seq<char>>,
}

impl View for ContainerStatsFilter {
    type V = ContainerStatsFilterView;

    open spec fn view(&self) -> ContainerStatsFilterView {
        ContainerStatsFilterView {
            id: self.id@,
            pod_sandbox_id: self.pod_sandbox_id@,
            label_selector: self.label_selector@,
        }
    }
}

impl DeepView for ContainerStatsFilter {
    type V = ContainerStatsFilterView;

    open spec fn deep_view(&self) -> ContainerStatsFilterView {
        self@
    }
}

/// Which container is spoken of.
#[derive(Debug, PartialEq, Eq)]
pub struct ContainerAttributes {
    pub id: String,
    pub metadata: Option<ContainerMetadata>,
    pub labels: TextMap<String>,
    pub annotations: TextMap<String>,
}

/// What a [`ContainerAttributes`] says.
#[verifier::ext_equal]
pub struct ContainerAttributesView {
    pub id: Seq<char>,
    pub metadata: Option<ContainerMetadataView>,
    pub labels: Map<Seq<char>, Seq<char>>,
    pub annotations: Map<Seq<char>, Seq<char>>,
}

impl View for ContainerAttributes {
    type V = ContainerAttributesView;

    open spec fn view(&self) -> ContainerAttributesView {
        ContainerAttributesView {
            id: self.id@,
            metadata: self.metadata.deep_view(),
            labels: self.labels@,
            annotations: self.annotations@,
        }
    }
}

impl DeepView for ContainerAttributes {
    type V = ContainerAttributesView;

    open spec fn deep_view(&self) -> ContainerAttributesView {
        self@
    }
}

/// A number that may be left out.
#[derive(Debug, PartialEq, Eq)]
pub struct UInt64Value {
    pub value: u64,
}

/// What an [`UInt64Value`] says.
#[verifier::ext_equal]
pub struct UInt64ValueView {
    pub value: u64,
}

impl View for UInt64Value {
    type V = UInt64ValueView;

    open spec fn view(&self) -> UInt64ValueView {
        UInt64ValueView {
            value: self.value,
        }
    }
}

impl DeepView for UInt64Value {
    type V = UInt64ValueView;

    open spec fn deep_view(&self) -> UInt64ValueView {
        self@
    }
}

/// Computing time used.
#[derive(Debug, PartialEq, Eq)]
pub struct CpuUsage {
    pub timestamp: i64,
    pub usage_core_nano_seconds: Option<UInt64Value>,
}

/// What a [`CpuUsage`] says.
#[verifier::ext_equal]
pub struct CpuUsageView {
    pub timestamp: i64,
    pub usage_core_nano_seconds: Option<UInt64ValueView>,
}

impl View for CpuUsage {
    type V = CpuUsageView;

    open spec fn view(&self) -> CpuUsageView {
        CpuUsageView {
            timestamp: self.timestamp,
            usage_core_nano_seconds: self.usage_core_nano_seconds.deep_view(),
        }
    }
}

impl DeepView for CpuUsage {
    type V = CpuUsageView;

    open spec fn deep_view(&self) -> CpuUsageView {
        self@
    }
}

/// Memory used.
#[derive(Debug, PartialEq, Eq)]
pub struct MemoryUsage {
    pub timestamp: i64,
    pub working_set_bytes: Option<UInt64Value>,
}

/// What a [`MemoryUsage`] says.
#[verifier::ext_equal]
pub struct MemoryUsageView {
    pub timestamp: i64,
    pub working_set_bytes: Option<UInt64ValueView>,
}

impl View for MemoryUsage {
    type V = MemoryUsageView;

    open spec fn view(&self) -> MemoryUsageView {
        MemoryUsageView {
            timestamp: self.timestamp,
            working_set_bytes: self.working_set_bytes.deep_view(),
        }
    }
}

impl DeepView for MemoryUsage {
    type V = MemoryUsageView;

    open spec fn deep_view(&self) -> MemoryUsageView {
        self@
    }
}

/// Storage used.
#[derive(Debug, PartialEq, Eq)]
pub struct FilesystemUsage {
    pub timestamp: i64,
    pub used_bytes: Option<UInt64Value>,
    pub inodes_used: Option<UInt64Value>,
}

/// What a [`FilesystemUsage`] says.
#[verifier::ext_equal]
pub struct FilesystemUsageView {
    pub timestamp: i64,
    pub used_bytes: Option<UInt64ValueView>,
    pub inodes_used: Option<UInt64ValueView>,
}

impl View for FilesystemUsage {
    type V = FilesystemUsageView;

    open spec fn view(&self) -> FilesystemUsageView {
        FilesystemUsageView {
            timestamp: self.timestamp,
            used_bytes: self.used_bytes.deep_view(),
            inodes_used: self.inodes_used.deep_view(),
        }
    }
}

impl DeepView for FilesystemUsage {
    type V = FilesystemUsageView;

    open spec fn deep_view(&self) -> FilesystemUsageView {
        self@
    }
}

/// What a container uses.
#[derive(Debug, PartialEq, Eq)]
pub struct ContainerStats {
    pub attributes: Option<ContainerAttributes>,
    pub cpu: Option<CpuUsage>,
    pub memory: Option<MemoryUsage>,
    pub writable_layer: Option<FilesystemUsage>,
}

/// What a [`ContainerStats`] says.
#[verifier::ext_equal]
pub struct ContainerStatsView {
    pub attributes: Option<ContainerAttributesView>,
    pub cpu: Option<CpuUsageView>,
    pub memory: Option<MemoryUsageView>,
    pub writable_layer: Option<FilesystemUsageView>,
}

impl View for ContainerStats {
    type V = ContainerStatsView;

    open spec fn view(&self) -> ContainerStatsView {
        ContainerStatsView {
            attributes: self.attributes.deep_view(),
            cpu: self.cpu.deep_view(),
            memory: self.memory.deep_view(),
            writable_layer: self.writable_layer.deep_view(),
        }
    }
}

impl DeepView for ContainerStats {
    type V = ContainerStatsView;

    open spec fn deep_view(&self) -> ContainerStatsView {
        self@
    }
}

} // verus!
