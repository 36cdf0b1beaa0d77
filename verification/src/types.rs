//! The values that the runtime and its backend exchange.

use crate::text_map::TextMap;
use vstd::prelude::*;

verus! {

/// Copies a list of texts.
pub fn clone_texts(v: &Vec<String>) -> (r: Vec<String>)
    ensures
        r.deep_view() == v.deep_view(),
{
    let mut r: Vec<String> = Vec::new();
    let mut i: usize = 0;
    while i < v.len()
        invariant
            i <= v@.len(),
            r@.len() == i,
            forall|j: int| 0 <= j < i ==> #[trigger] r@[j]@ == v@[j]@,
        decreases v@.len() - i,
    {
        r.push(v[i].clone());
        i = i + 1;
    }
    assert(r.deep_view() =~= v.deep_view());
    r
}

/// Copies a list of pairs of texts.
pub fn clone_pairs(v: &Vec<(String, String)>) -> (r: Vec<(String, String)>)
    ensures
        r.deep_view() == v.deep_view(),
{
    let mut r: Vec<(String, String)> = Vec::new();
    let mut i: usize = 0;
    while i < v.len()
        invariant
            i <= v@.len(),
            r@.len() == i,
            forall|j: int| 0 <= j < i ==> #[trigger] r@[j].deep_view() == v@[j].deep_view(),
        decreases v@.len() - i,
    {
        let pair = (v[i].0.clone(), v[i].1.clone());
        r.push(pair);
        i = i + 1;
    }
    assert(r.deep_view() =~= v.deep_view());
    r
}

/// Copies a text that may be absent.
pub fn clone_opt_text(v: &Option<String>) -> (r: Option<String>)
    ensures
        r.deep_view() == v.deep_view(),
{
    match v {
        Some(s) => Some(s.clone()),
        None => None,
    }
}

/// Names a pod sandbox.
#[derive(Debug, PartialEq, Eq)]
pub struct SandboxId(pub String);

impl View for SandboxId {
    type V = Seq<char>;

    open spec fn view(&self) -> Seq<char> {
        self.0@
    }
}

impl Clone for SandboxId {
    fn clone(&self) -> (r: Self)
        ensures
            r@ == self@,
    {
        SandboxId(self.0.clone())
    }
}

/// Names a container.
#[derive(Debug, PartialEq, Eq)]
pub struct ContainerId(pub String);

impl View for ContainerId {
    type V = Seq<char>;

    open spec fn view(&self) -> Seq<char> {
        self.0@
    }
}

impl Clone for ContainerId {
    fn clone(&self) -> (r: Self)
        ensures
            r@ == self@,
    {
        ContainerId(self.0.clone())
    }
}

/// Whether a sandbox can hold new containers.
#[derive(Clone, Copy, Debug, PartialEq, Eq, Structural)]
pub enum SandboxState {
    Ready,
    NotReady,
}

/// Where a container stands in its life.
#[derive(Clone, Copy, Debug, PartialEq, Eq, Structural)]
pub enum ContainerState {
    Created,
    Running,
    Exited,
    Unknown,
}

/// A host path made visible in a container.
#[derive(Debug, PartialEq, Eq)]
pub struct Mount {
    pub container_path: String,
    pub host_path: String,
    pub readonly: bool,
}

/// What a [`Mount`] says.
#[verifier::ext_equal]
pub struct MountView {
    pub container_path: Seq<char>,
    pub host_path: Seq<char>,
    pub readonly: bool,
}

impl View for Mount {
    type V = MountView;

    open spec fn view(&self) -> MountView {
        MountView {
            container_path: self.container_path@,
            host_path: self.host_path@,
            readonly: self.readonly,
        }
    }
}

impl DeepView for Mount {
    type V = MountView;

    open spec fn deep_view(&self) -> MountView {
        self@
    }
}

impl Clone for Mount {
    fn clone(&self) -> (r: Self)
        ensures
            r@ == self@,
    {
        Mount {
            container_path: self.container_path.clone(),
            host_path: self.host_path.clone(),
            readonly: self.readonly,
        }
    }
}

/// A port of the sandbox published on the host.
#[derive(Debug, PartialEq, Eq)]
pub struct PortMapping {
    pub protocol: i32,
    pub container_port: i32,
    pub host_port: i32,
    pub host_ip: String,
}

/// What a [`PortMapping`] says.
#[verifier::ext_equal]
pub struct PortMappingView {
    pub protocol: i32,
    pub container_port: i32,
    pub host_port: i32,
    pub host_ip: Seq<char>,
}

impl View for PortMapping {
    type V = PortMappingView;

    open spec fn view(&self) -> PortMappingView {
        PortMappingView {
            protocol: self.protocol,
            container_port: self.container_port,
            host_port: self.host_port,
            host_ip: self.host_ip@,
        }
    }
}

impl DeepView for PortMapping {
    type V = PortMappingView;

    open spec fn deep_view(&self) -> PortMappingView {
        self@
    }
}

impl Clone for PortMapping {
    fn clone(&self) -> (r: Self)
        ensures
            r@ == self@,
    {
        PortMapping {
            protocol: self.protocol,
            container_port: self.container_port,
            host_port: self.host_port,
            host_ip: self.host_ip.clone(),
        }
    }
}

/// The resolver settings of a sandbox.
#[derive(Debug, PartialEq, Eq)]
pub struct DnsConfig {
    pub servers: Vec<String>,
    pub searches: Vec<String>,
    pub options: Vec<String>,
}

/// What a [`DnsConfig`] says.
#[verifier::ext_equal]
pub struct DnsConfigView {
    pub servers: Seq<Seq<char>>,
    pub searches: Seq<Seq<char>>,
    pub options: Seq<Seq<char>>,
}

impl View for DnsConfig {
    type V = DnsConfigView;

    open spec fn view(&self) -> DnsConfigView {
        DnsConfigView {
            servers: self.servers.deep_view(),
            searches: self.searches.deep_view(),
            options: self.options.deep_view(),
        }
    }
}

impl DeepView for DnsConfig {
    type V = DnsConfigView;

    open spec fn deep_view(&self) -> DnsConfigView {
        self@
    }
}

impl Clone for DnsConfig {
    fn clone(&self) -> (r: Self)
        ensures
            r@ == self@,
    {
        DnsConfig {
            servers: clone_texts(&self.servers),
            searches: clone_texts(&self.searches),
            options: clone_texts(&self.options),
        }
    }
}

/// Copies a list of mounts.
pub fn clone_mounts(v: &Vec<Mount>) -> (r: Vec<Mount>)
    ensures
        r.deep_view() == v.deep_view(),
{
    let mut r: Vec<Mount> = Vec::new();
    let mut i: usize = 0;
    while i < v.len()
        invariant
            i <= v@.len(),
            r@.len() == i,
            forall|j: int| 0 <= j < i ==> #[trigger] r@[j]@ == v@[j]@,
        decreases v@.len() - i,
    {
        r.push(v[i].clone());
        i = i + 1;
    }
    assert(r.deep_view() =~= v.deep_view());
    r
}

/// Copies a list of port mappings.
pub fn clone_port_mappings(v: &Vec<PortMapping>) -> (r: Vec<PortMapping>)
    ensures
        r.deep_view() == v.deep_view(),
{
    let mut r: Vec<PortMapping> = Vec::new();
    let mut i: usize = 0;
    while i < v.len()
        invariant
            i <= v@.len(),
            r@.len() == i,
            forall|j: int| 0 <= j < i ==> #[trigger] r@[j]@ == v@[j]@,
        decreases v@.len() - i,
    {
        r.push(v[i].clone());
        i = i + 1;
    }
    assert(r.deep_view() =~= v.deep_view());
    r
}

/// Copies resolver settings that may be absent.
pub fn clone_opt_dns(v: &Option<DnsConfig>) -> (r: Option<DnsConfig>)
    ensures
        r.deep_view() == v.deep_view(),
{
    match v {
        Some(d) => Some(d.clone()),
        None => None,
    }
}

/// What a sandbox is asked to be.
#[derive(Debug, PartialEq, Eq)]
pub struct SandboxConfig {
    pub name: String,
    pub uid: String,
    pub namespace: String,
    pub attempt: u32,
    pub labels: TextMap<String>,
    pub annotations: TextMap<String>,
    /// Where the logs of its containers go; empty for nowhere.
    pub log_directory: String,
    pub hostname: String,
    pub host_network: bool,
    pub dns: Option<DnsConfig>,
    pub port_mappings: Vec<PortMapping>,
}

/// What a [`SandboxConfig`] says.
#[verifier::ext_equal]
pub struct SandboxConfigView {
    pub name: Seq<char>,
    pub uid: Seq<char>,
    pub namespace: Seq<char>,
    pub attempt: u32,
    pub labels: Map<Seq<char>, Seq<char>>,
    pub annotations: Map<Seq<char>, Seq<char>>,
    pub log_directory: Seq<char>,
    pub hostname: Seq<char>,
    pub host_network: bool,
    pub dns: Option<DnsConfigView>,
    pub port_mappings: Seq<PortMappingView>,
}

impl View for SandboxConfig {
    type V = SandboxConfigView;

    open spec fn view(&self) -> SandboxConfigView {
        SandboxConfigView {
            name: self.name@,
            uid: self.uid@,
            namespace: self.namespace@,
            attempt: self.attempt,
            labels: self.labels@,
            annotations: self.annotations@,
            log_directory: self.log_directory@,
            hostname: self.hostname@,
            host_network: self.host_network,
            dns: self.dns.deep_view(),
            port_mappings: self.port_mappings.deep_view(),
        }
    }
}

impl Clone for SandboxConfig {
    fn clone(&self) -> (r: Self)
        ensures
            r@ == self@,
    {
        SandboxConfig {
            name: self.name.clone(),
            uid: self.uid.clone(),
            namespace: self.namespace.clone(),
            attempt: self.attempt,
            labels: self.labels.clone(),
            annotations: self.annotations.clone(),
            log_directory: self.log_directory.clone(),
            hostname: self.hostname.clone(),
            host_network: self.host_network,
            dns: clone_opt_dns(&self.dns),
            port_mappings: clone_port_mappings(&self.port_mappings),
        }
    }
}

/// What a container is asked to be.
#[derive(Debug, PartialEq, Eq)]
pub struct ContainerConfig {
    pub name: String,
    pub attempt: u32,
    pub image_ref: String,
    pub command: Vec<String>,
    pub args: Vec<String>,
    /// Where the process starts; empty for the host default.
    pub working_dir: String,
    pub envs: Vec<(String, String)>,
    pub mounts: Vec<Mount>,
    pub labels: TextMap<String>,
    pub annotations: TextMap<String>,
    /// The log file, below the log directory of the sandbox; empty for none.
    pub log_path: String,
    pub tty: bool,
    pub stdin: bool,
}

/// What a [`ContainerConfig`] says.
#[verifier::ext_equal]
pub struct ContainerConfigView {
    pub name: Seq<char>,
    pub attempt: u32,
    pub image_ref: Seq<char>,
    pub command: Seq<Seq<char>>,
    pub args: Seq<Seq<char>>,
    pub working_dir: Seq<char>,
    pub envs: Seq<(Seq<char>, Seq<char>)>,
    pub mounts: Seq<MountView>,
    pub labels: Map<Seq<char>, Seq<char>>,
    pub annotations: Map<Seq<char>, Seq<char>>,
    pub log_path: Seq<char>,
    pub tty: bool,
    pub stdin: bool,
}

impl View for ContainerConfig {
    type V = ContainerConfigView;

    open spec fn view(&self) -> ContainerConfigView {
        ContainerConfigView {
            name: self.name@,
            attempt: self.attempt,
            image_ref: self.image_ref@,
            command: self.command.deep_view(),
            args: self.args.deep_view(),
            working_dir: self.working_dir@,
            envs: self.envs.deep_view(),
            mounts: self.mounts.deep_view(),
            labels: self.labels@,
            annotations: self.annotations@,
            log_path: self.log_path@,
            tty: self.tty,
            stdin: self.stdin,
        }
    }
}

impl Clone for ContainerConfig {
    fn clone(&self) -> (r: Self)
        ensures
            r@ == self@,
    {
        ContainerConfig {
            name: self.name.clone(),
            attempt: self.attempt,
            image_ref: self.image_ref.clone(),
            command: clone_texts(&self.command),
            args: clone_texts(&self.args),
            working_dir: self.working_dir.clone(),
            envs: clone_pairs(&self.envs),
            mounts: clone_mounts(&self.mounts),
            labels: self.labels.clone(),
            annotations: self.annotations.clone(),
            log_path: self.log_path.clone(),
            tty: self.tty,
            stdin: self.stdin,
        }
    }
}

/// What a backend reports of a sandbox.
#[derive(Debug, PartialEq, Eq)]
pub struct SandboxStatus {
    pub id: SandboxId,
    pub config: SandboxConfig,
    pub state: SandboxState,
    pub created_at_nanos: i64,
    pub ip: Option<String>,
    pub netns_path: Option<String>,
}

/// What a [`SandboxStatus`] says.
#[verifier::ext_equal]
pub struct SandboxStatusView {
    pub id: Seq<char>,
    pub config: SandboxConfigView,
    pub state: SandboxState,
    pub created_at_nanos: i64,
    pub ip: Option<Seq<char>>,
    pub netns_path: Option<Seq<char>>,
}

impl View for SandboxStatus {
    type V = SandboxStatusView;

    open spec fn view(&self) -> SandboxStatusView {
        SandboxStatusView {
            id: self.id@,
            config: self.config@,
            state: self.state,
            created_at_nanos: self.created_at_nanos,
            ip: self.ip.deep_view(),
            netns_path: self.netns_path.deep_view(),
        }
    }
}

impl DeepView for SandboxStatus {
    type V = SandboxStatusView;

    open spec fn deep_view(&self) -> SandboxStatusView {
        self@
    }
}

/// What a backend reports of a container.
#[derive(Debug, PartialEq, Eq)]
pub struct ContainerStatus {
    pub id: ContainerId,
    pub sandbox: SandboxId,
    pub config: ContainerConfig,
    pub state: ContainerState,
    pub created_at_nanos: i64,
    pub started_at_nanos: i64,
    pub finished_at_nanos: i64,
    pub exit_code: i32,
    pub reason: String,
    pub message: String,
}

/// What a [`ContainerStatus`] says.
#[verifier::ext_equal]
pub struct ContainerStatusView {
    pub id: Seq<char>,
    pub sandbox: Seq<char>,
    pub config: ContainerConfigView,
    pub state: ContainerState,
    pub created_at_nanos: i64,
    pub started_at_nanos: i64,
    pub finished_at_nanos: i64,
    pub exit_code: i32,
    pub reason: Seq<char>,
    pub message: Seq<char>,
}

impl View for ContainerStatus {
    type V = ContainerStatusView;

    open spec fn view(&self) -> ContainerStatusView {
        ContainerStatusView {
            id: self.id@,
            sandbox: self.sandbox@,
            config: self.config@,
            state: self.state,
            created_at_nanos: self.created_at_nanos,
            started_at_nanos: self.started_at_nanos,
            finished_at_nanos: self.finished_at_nanos,
            exit_code: self.exit_code,
            reason: self.reason@,
            message: self.message@,
        }
    }
}

impl DeepView for ContainerStatus {
    type V = ContainerStatusView;

    open spec fn deep_view(&self) -> ContainerStatusView {
        self@
    }
}

/// What a container has used up to a moment.
#[derive(Debug, PartialEq, Eq)]
pub struct ContainerStatsRec {
    pub id: ContainerId,
    pub timestamp_nanos: i64,
    pub cpu_usage_core_nanos: u64,
    pub memory_working_set_bytes: u64,
}

/// What a [`ContainerStatsRec`] says.
#[verifier::ext_equal]
pub struct ContainerStatsRecView {
    pub id: Seq<char>,
    pub timestamp_nanos: i64,
    pub cpu_usage_core_nanos: u64,
    pub memory_working_set_bytes: u64,
}

impl View for ContainerStatsRec {
    type V = ContainerStatsRecView;

    open spec fn view(&self) -> ContainerStatsRecView {
        ContainerStatsRecView {
            id: self.id@,
            timestamp_nanos: self.timestamp_nanos,
            cpu_usage_core_nanos: self.cpu_usage_core_nanos,
            memory_working_set_bytes: self.memory_working_set_bytes,
        }
    }
}

impl DeepView for ContainerStatsRec {
    type V = ContainerStatsRecView;

    open spec fn deep_view(&self) -> ContainerStatsRecView {
        self@
    }
}

/// What pulling an image yields.
#[derive(Debug, PartialEq, Eq)]
pub struct PulledImage {
    pub ref_name: String,
    /// The root digest, in hexadecimal.
    pub root_hex: String,
    pub total_size: u64,
}

/// What a [`PulledImage`] says.
#[verifier::ext_equal]
pub struct PulledImageView {
    pub ref_name: Seq<char>,
    pub root_hex: Seq<char>,
    pub total_size: u64,
}

impl View for PulledImage {
    type V = PulledImageView;

    open spec fn view(&self) -> PulledImageView {
        PulledImageView {
            ref_name: self.ref_name@,
            root_hex: self.root_hex@,
            total_size: self.total_size,
        }
    }
}

/// What a backend reports of an image.
#[derive(Debug, PartialEq, Eq)]
pub struct ImageRecord {
    pub id: String,
    pub ref_name: String,
    pub size: u64,
}

/// What a [`ImageRecord`] says.
#[verifier::ext_equal]
pub struct ImageRecordView {
    pub id: Seq<char>,
    pub ref_name: Seq<char>,
    pub size: u64,
}

impl View for ImageRecord {
    type V = ImageRecordView;

    open spec fn view(&self) -> ImageRecordView {
        ImageRecordView {
            id: self.id@,
            ref_name: self.ref_name@,
            size: self.size,
        }
    }
}

impl DeepView for ImageRecord {
    type V = ImageRecordView;

    open spec fn deep_view(&self) -> ImageRecordView {
        self@
    }
}

/// How full the image store is.
#[derive(Debug, PartialEq, Eq)]
pub struct FsInfo {
    pub timestamp_nanos: i64,
    pub mountpoint: String,
    pub used_bytes: u64,
    pub inodes_used: u64,
}

/// What a [`FsInfo`] says.
#[verifier::ext_equal]
pub struct FsInfoView {
    pub timestamp_nanos: i64,
    pub mountpoint: Seq<char>,
    pub used_bytes: u64,
    pub inodes_used: u64,
}

impl View for FsInfo {
    type V = FsInfoView;

    open spec fn view(&self) -> FsInfoView {
        FsInfoView {
            timestamp_nanos: self.timestamp_nanos,
            mountpoint: self.mountpoint@,
            used_bytes: self.used_bytes,
            inodes_used: self.inodes_used,
        }
    }
}

/// What a command run to its end left behind.
#[derive(Debug, PartialEq, Eq)]
pub struct ExecResult {
    pub exit_code: i32,
    pub stdout: Vec<u8>,
    pub stderr: Vec<u8>,
}

/// What an [`ExecResult`] says.
#[verifier::ext_equal]
pub struct ExecResultView {
    pub exit_code: i32,
    pub stdout: Seq<u8>,
    pub stderr: Seq<u8>,
}

impl View for ExecResult {
    type V = ExecResultView;

    open spec fn view(&self) -> ExecResultView {
        ExecResultView { exit_code: self.exit_code, stdout: self.stdout@, stderr: self.stderr@ }
    }
}

/// Picks sandboxes: every part that is given must agree.
#[derive(Debug, PartialEq, Eq)]
pub struct SandboxFilter {
    pub id: Option<SandboxId>,
    pub state: Option<SandboxState>,
    pub label_selector: TextMap<String>,
}

/// What a [`SandboxFilter`] says.
#[verifier::ext_equal]
pub struct SandboxFilterView {
    pub id: Option<Seq<char>>,
    pub state: Option<SandboxState>,
    pub label_selector: Map<Seq<char>, Seq<char>>,
}

impl View for SandboxFilter {
    type V = SandboxFilterView;

    open spec fn view(&self) -> SandboxFilterView {
        SandboxFilterView {
            id: match self.id { Some(v) => Some(v@), None => None },
            state: self.state,
            label_selector: self.label_selector@,
        }
    }
}

/// Picks containers: every part that is given must agree.
#[derive(Debug, PartialEq, Eq)]
pub struct ContainerFilter {
    pub id: Option<ContainerId>,
    pub sandbox: Option<SandboxId>,
    pub state: Option<ContainerState>,
    pub label_selector: TextMap<String>,
}

/// What a [`ContainerFilter`] says.
#[verifier::ext_equal]
pub struct ContainerFilterView {
    pub id: Option<Seq<char>>,
    pub sandbox: Option<Seq<char>>,
    pub state: Option<ContainerState>,
    pub label_selector: Map<Seq<char>, Seq<char>>,
}

impl View for ContainerFilter {
    type V = ContainerFilterView;

    open spec fn view(&self) -> ContainerFilterView {
        ContainerFilterView {
            id: match self.id { Some(v) => Some(v@), None => None },
            sandbox: match self.sandbox { Some(v) => Some(v@), None => None },
            state: self.state,
            label_selector: self.label_selector@,
        }
    }
}

impl SandboxFilterView {
    /// The filter that every sandbox passes.
    pub open spec fn all() -> SandboxFilterView {
        SandboxFilterView { id: None, state: None, label_selector: Map::empty() }
    }
}

impl ContainerFilterView {
    /// The filter that every container passes.
    pub open spec fn all() -> ContainerFilterView {
        ContainerFilterView { id: None, sandbox: None, state: None, label_selector: Map::empty() }
    }
}

impl Default for SandboxFilter {
    fn default() -> (r: Self)
        ensures
            r@ == SandboxFilterView::all(),
    {
        SandboxFilter { id: None, state: None, label_selector: TextMap::new() }
    }
}

impl Default for ContainerFilter {
    fn default() -> (r: Self)
        ensures
            r@ == ContainerFilterView::all(),
    {
        ContainerFilter { id: None, sandbox: None, state: None, label_selector: TextMap::new() }
    }
}

/// Why a backend refuses or fails.
#[derive(Debug, PartialEq, Eq)]
pub enum BackendError {
    NotFound(String),
    FailedPrecondition(String),
    InvalidArgument(String),
    InUse(String),
    Internal(String),
    Io(String),
}

/// What a [`BackendError`] says.
#[verifier::ext_equal]
pub enum BackendErrorView {
    NotFound(Seq<char>),
    FailedPrecondition(Seq<char>),
    InvalidArgument(Seq<char>),
    InUse(Seq<char>),
    Internal(Seq<char>),
    Io(Seq<char>),
}

impl View for BackendError {
    type V = BackendErrorView;

    open spec fn view(&self) -> BackendErrorView {
        match self {
            BackendError::NotFound(m) => BackendErrorView::NotFound(m@),
            BackendError::FailedPrecondition(m) => BackendErrorView::FailedPrecondition(m@),
            BackendError::InvalidArgument(m) => BackendErrorView::InvalidArgument(m@),
            BackendError::InUse(m) => BackendErrorView::InUse(m@),
            BackendError::Internal(m) => BackendErrorView::Internal(m@),
            BackendError::Io(m) => BackendErrorView::Io(m@),
        }
    }
}

} // verus!
