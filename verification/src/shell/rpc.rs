//! The requests of the runtime service, one by one: what each asks of the backend, and how the
//! backend's answer is told.

use crate::shell::proto;
use crate::shell::runtime::{
    build_container, build_container_stats, build_pod_sandbox, Code, Refusal, RefusalView,
};
use crate::text::same_text;
use crate::types::{
    BackendError, ContainerConfig, ContainerConfigView, ContainerStatsRec, ContainerStatsRecView,
    ContainerStatus, ContainerStatusView, Mount, MountView, SandboxConfig, SandboxConfigView,
    SandboxStatus, SandboxStatusView,
};
use vstd::prelude::*;
use vstd::string::*;

verus! {

/// What is told of the version of the runtime.
pub open spec fn version_told(asked: Seq<char>) -> proto::VersionResponseView {
    proto::VersionResponseView {
        version: asked,
        runtime_name: "lightr"@,
        runtime_version: "0.1.0"@,
        runtime_api_version: "v1"@,
    }
}

/// Tells the version of the runtime; the version asked for comes back.
pub fn version(request: proto::VersionRequest) -> (r: proto::VersionResponse)
    ensures
        r@ == version_told(request@.version),
{
    proto::VersionResponse {
        version: request.version,
        runtime_name: "lightr".to_owned(),
        runtime_version: "0.1.0".to_owned(),
        runtime_api_version: "v1".to_owned(),
    }
}

/// The conditions of the runtime: it is ready, and so is its network.
pub open spec fn conditions() -> Seq<proto::RuntimeConditionView> {
    seq![
        proto::RuntimeConditionView {
            kind: "RuntimeReady"@,
            status: true,
            reason: Seq::empty(),
            message: Seq::empty(),
        },
        proto::RuntimeConditionView {
            kind: "NetworkReady"@,
            status: true,
            reason: Seq::empty(),
            message: "r0-fake-network"@,
        },
    ]
}

/// Tells the conditions of the runtime.
pub fn status() -> (r: proto::StatusResponse)
    ensures
        r@.conditions == conditions(),
{
    let runtime = proto::RuntimeCondition {
        kind: "RuntimeReady".to_owned(),
        status: true,
        reason: String::new(),
        message: String::new(),
    };
    let network = proto::RuntimeCondition {
        kind: "NetworkReady".to_owned(),
        status: true,
        reason: String::new(),
        message: "r0-fake-network".to_owned(),
    };
    let mut list: Vec<proto::RuntimeCondition> = Vec::new();
    list.push(runtime);
    list.push(network);
    assert(list.deep_view() =~= conditions());
    proto::StatusResponse { conditions: list }
}

/// A part of the request is missing.
pub open spec fn missing(what: Seq<char>) -> RefusalView {
    RefusalView { code: Code::InvalidArgument, message: what + " is required"@ }
}

fn missing_part(what: &str) -> (r: Refusal)
    ensures
        r@ == missing(what@),
{
    let mut message = what.to_owned();
    message.append(" is required");
    Refusal { code: Code::InvalidArgument, message }
}

/// The sandbox that a request to run one asks for.
pub open spec fn sandbox_wanted(config: Option<proto::PodSandboxConfigView>) -> Result<
    SandboxConfigView,
    RefusalView,
> {
    match config {
        None => Err(missing("config"@)),
        Some(c) => match c.metadata {
            None => Err(missing("config.metadata"@)),
            Some(m) => Ok(
                SandboxConfigView {
                    name: m.name,
                    uid: m.uid,
                    namespace: m.namespace,
                    attempt: m.attempt,
                    labels: c.labels,
                    annotations: c.annotations,
                    log_directory: c.log_directory,
                    hostname: Seq::empty(),
                    host_network: false,
                    dns: None,
                    port_mappings: Seq::empty(),
                },
            ),
        },
    }
}

/// The sandbox that a request to run one asks for.
pub fn run_pod_sandbox(config: Option<proto::PodSandboxConfig>) -> (r: Result<
    SandboxConfig,
    Refusal,
>)
    ensures
        match r {
            Ok(c) => sandbox_wanted(config.deep_view()) == Ok::<SandboxConfigView, RefusalView>(c@),
            Err(e) => sandbox_wanted(config.deep_view()) == Err::<SandboxConfigView, RefusalView>(
                e@,
            ),
        },
{
    let c = match config {
        None => {
            return Err(missing_part("config"));
        },
        Some(c) => c,
    };
    let m = match c.metadata {
        None => {
            return Err(missing_part("config.metadata"));
        },
        Some(m) => m,
    };
    let wanted = SandboxConfig {
        name: m.name,
        uid: m.uid,
        namespace: m.namespace,
        attempt: m.attempt,
        labels: c.labels,
        annotations: c.annotations,
        log_directory: c.log_directory,
        hostname: String::new(),
        host_network: false,
        dns: None,
        port_mappings: Vec::new(),
    };
    assert(wanted.port_mappings.deep_view() =~= Seq::empty());
    Ok(wanted)
}

/// A variable of the environment as a pair.
pub open spec fn pair_of(kv: proto::KeyValueView) -> (Seq<char>, Seq<char>) {
    (kv.key, kv.value)
}

/// A mount as it is wanted.
pub open spec fn mount_wanted(m: proto::MountView) -> MountView {
    MountView { container_path: m.container_path, host_path: m.host_path, readonly: m.readonly }
}

/// The container that a request to create one asks for.
pub open spec fn container_wanted(config: Option<proto::ContainerConfigView>) -> Result<
    ContainerConfigView,
    RefusalView,
> {
    match config {
        None => Err(missing("config"@)),
        Some(c) => match c.metadata {
            None => Err(missing("config.metadata"@)),
            Some(m) => Ok(
                ContainerConfigView {
                    name: m.name,
                    attempt: m.attempt,
                    image_ref: match c.image {
                        Some(i) => i.image,
                        None => Seq::empty(),
                    },
                    command: c.command,
                    args: c.args,
                    working_dir: c.working_dir,
                    envs: c.envs.map_values(|kv: proto::KeyValueView| pair_of(kv)),
                    mounts: c.mounts.map_values(|m: proto::MountView| mount_wanted(m)),
                    labels: c.labels,
                    annotations: c.annotations,
                    log_path: c.log_path,
                    tty: false,
                    stdin: false,
                },
            ),
        },
    }
}

fn pairs(envs: &Vec<proto::KeyValue>) -> (r: Vec<(String, String)>)
    ensures
        r.deep_view() == envs.deep_view().map_values(|kv: proto::KeyValueView| pair_of(kv)),
{
    let mut r: Vec<(String, String)> = Vec::new();
    let mut i: usize = 0;
    while i < envs.len()
        invariant
            i <= envs@.len(),
            r@.len() == i,
            forall|j: int| 0 <= j < i ==> (#[trigger] r@[j]).deep_view() == pair_of(envs@[j]@),
        decreases envs@.len() - i,
    {
        let pair = (envs[i].key.clone(), envs[i].value.clone());
        r.push(pair);
        i = i + 1;
    }
    assert(r.deep_view() =~= envs.deep_view().map_values(|kv: proto::KeyValueView| pair_of(kv)));
    r
}

fn mounts(list: &Vec<proto::Mount>) -> (r: Vec<Mount>)
    ensures
        r.deep_view() == list.deep_view().map_values(|m: proto::MountView| mount_wanted(m)),
{
    let mut r: Vec<Mount> = Vec::new();
    let mut i: usize = 0;
    while i < list.len()
        invariant
            i <= list@.len(),
            r@.len() == i,
            forall|j: int| 0 <= j < i ==> (#[trigger] r@[j])@ == mount_wanted(list@[j]@),
        decreases list@.len() - i,
    {
        let m = &list[i];
        r.push(
            Mount {
                container_path: m.container_path.clone(),
                host_path: m.host_path.clone(),
                readonly: m.readonly,
            },
        );
        i = i + 1;
    }
    assert(r.deep_view() =~= list.deep_view().map_values(|m: proto::MountView| mount_wanted(m)));
    r
}

/// The container that a request to create one asks for.
pub fn create_container(config: Option<proto::ContainerConfig>) -> (r: Result<
    ContainerConfig,
    Refusal,
>)
    ensures
        match r {
            Ok(c) => container_wanted(config.deep_view()) == Ok::<ContainerConfigView, RefusalView>(
                c@,
            ),
            Err(e) => container_wanted(config.deep_view()) == Err::<
                ContainerConfigView,
                RefusalView,
            >(e@),
        },
{
    let c = match config {
        None => {
            return Err(missing_part("config"));
        },
        Some(c) => c,
    };
    let m = match c.metadata {
        None => {
            return Err(missing_part("config.metadata"));
        },
        Some(m) => m,
    };
    let image_ref = match c.image {
        Some(i) => i.image,
        None => String::new(),
    };
    Ok(
        ContainerConfig {
            name: m.name,
            attempt: m.attempt,
            image_ref,
            command: c.command,
            args: c.args,
            working_dir: c.working_dir,
            envs: pairs(&c.envs),
            mounts: mounts(&c.mounts),
            labels: c.labels,
            annotations: c.annotations,
            log_path: c.log_path,
            tty: false,
            stdin: false,
        },
    )
}

/// The list of sandboxes, as it is told.
pub open spec fn sandboxes_told(sandboxes: Seq<SandboxStatusView>) -> Seq<proto::PodSandboxView> {
    sandboxes.map_values(|s: SandboxStatusView| crate::shell::runtime::sandbox_listed(s))
}

/// The list of sandboxes, as the backend gave it.
pub fn list_pod_sandbox(sandboxes: &Vec<SandboxStatus>) -> (r: Vec<proto::PodSandbox>)
    ensures
        r.deep_view() == sandboxes_told(sandboxes.deep_view()),
{
    let mut r: Vec<proto::PodSandbox> = Vec::new();
    let mut i: usize = 0;
    while i < sandboxes.len()
        invariant
            i <= sandboxes@.len(),
            r@.len() == i,
            forall|j: int|
                0 <= j < i ==> (#[trigger] r@[j])@ == crate::shell::runtime::sandbox_listed(
                    sandboxes@[j]@,
                ),
        decreases sandboxes@.len() - i,
    {
        r.push(build_pod_sandbox(&sandboxes[i]));
        i = i + 1;
    }
    assert(r.deep_view() =~= sandboxes_told(sandboxes.deep_view()));
    r
}

/// The list of containers, as it is told.
pub open spec fn containers_told(containers: Seq<ContainerStatusView>) -> Seq<
    proto::ContainerView,
> {
    containers.map_values(|s: ContainerStatusView| crate::shell::runtime::container_listed(s))
}

/// The list of containers, as the backend gave it.
pub fn list_containers(containers: &Vec<ContainerStatus>) -> (r: Vec<proto::Container>)
    ensures
        r.deep_view() == containers_told(containers.deep_view()),
{
    let mut r: Vec<proto::Container> = Vec::new();
    let mut i: usize = 0;
    while i < containers.len()
        invariant
            i <= containers@.len(),
            r@.len() == i,
            forall|j: int|
                0 <= j < i ==> (#[trigger] r@[j])@ == crate::shell::runtime::container_listed(
                    containers@[j]@,
                ),
        decreases containers@.len() - i,
    {
        r.push(build_container(&containers[i]));
        i = i + 1;
    }
    assert(r.deep_view() =~= containers_told(containers.deep_view()));
    r
}

/// What one container uses. Where its status could not be had, only its name is told besides.
pub fn container_stats(
    rec: &ContainerStatsRec,
    status: &Result<ContainerStatus, BackendError>,
) -> (r: proto::ContainerStats)
    ensures
        r@ == crate::shell::runtime::stats_told(
            rec@,
            match *status {
                Ok(s) => Some(s@),
                Err(_) => None,
            },
        ),
{
    match status {
        Ok(s) => build_container_stats(rec, Some(s)),
        Err(_) => build_container_stats(rec, None),
    }
}

/// The statuses that could be had, by name.
pub open spec fn known_statuses(statuses: Result<Vec<ContainerStatus>, BackendError>) -> Map<
    Seq<char>,
    ContainerStatusView,
> {
    match statuses {
        Ok(v) => crate::text_map::indexed(v.deep_view(), |s: ContainerStatusView| s.id),
        Err(_) => Map::empty(),
    }
}

/// What is held at the key, if anything.
pub open spec fn found(m: Map<Seq<char>, ContainerStatusView>, k: Seq<char>) -> Option<
    ContainerStatusView,
> {
    if m.dom().contains(k) {
        Some(m[k])
    } else {
        None
    }
}

fn status_named<'a>(
    statuses: &'a Result<Vec<ContainerStatus>, BackendError>,
    id: &str,
) -> (r: Option<&'a ContainerStatus>)
    ensures
        crate::shell::runtime::status_view(r) == found(known_statuses(*statuses), id@),
{
    let list = match statuses {
        Ok(v) => v,
        Err(_) => {
            return None;
        },
    };
    let ghost all = list.deep_view();
    let ghost name = |s: ContainerStatusView| s.id;
    let mut r: Option<&'a ContainerStatus> = None;
    let mut i: usize = 0;
    assert(all.take(0) =~= Seq::empty());
    while i < list.len()
        invariant
            i <= list@.len(),
            all == list.deep_view(),
            name == (|s: ContainerStatusView| s.id),
            crate::shell::runtime::status_view(r) == found(
                crate::text_map::indexed(all.take(i as int), name),
                id@,
            ),
        decreases list@.len() - i,
    {
        let s = &list[i];
        proof {
            assert(all.take(i + 1).drop_last() =~= all.take(i as int));
            assert(all.take(i + 1).last() == s@);
        }
        if same_text(s.id.0.as_str(), id) {
            r = Some(s);
        }
        i = i + 1;
    }
    assert(all.take(i as int) =~= all);
    r
}

/// What the containers use, as it is told, with the statuses that are known by name.
pub open spec fn uses_told(
    recs: Seq<ContainerStatsRecView>,
    known: Map<Seq<char>, ContainerStatusView>,
) -> Seq<proto::ContainerStatsView> {
    recs.map_values(
        |rec: ContainerStatsRecView| crate::shell::runtime::stats_told(rec, found(known, rec.id)),
    )
}

/// What the containers use, each with what is known of the container itself.
pub fn list_container_stats(
    recs: &Vec<ContainerStatsRec>,
    statuses: Result<Vec<ContainerStatus>, BackendError>,
) -> (r: Vec<proto::ContainerStats>)
    ensures
        r.deep_view() == uses_told(recs.deep_view(), known_statuses(statuses)),
{
    let ghost m = known_statuses(statuses);
    let mut r: Vec<proto::ContainerStats> = Vec::new();
    let mut i: usize = 0;
    while i < recs.len()
        invariant
            i <= recs@.len(),
            r@.len() == i,
            m == known_statuses(statuses),
            forall|j: int|
                0 <= j < i ==> (#[trigger] r@[j])@ == crate::shell::runtime::stats_told(
                    recs@[j]@,
                    found(m, recs@[j]@.id),
                ),
        decreases recs@.len() - i,
    {
        let rec = &recs[i];
        let status = status_named(&statuses, rec.id.0.as_str());
        r.push(build_container_stats(rec, status));
        i = i + 1;
    }
    assert(r.deep_view() =~= uses_told(recs.deep_view(), m));
    r
}

/// The requests that are not served.
#[derive(Clone, Copy, Debug, PartialEq, Eq, Structural)]
pub enum Unserved {
    Exec,
    Attach,
    PortForward,
    GetContainerEvents,
    UpdateRuntimeConfig,
    UpdateContainerResources,
    ReopenContainerLog,
    CheckpointContainer,
    PodSandboxStats,
    ListPodSandboxStats,
    ListMetricDescriptors,
    ListPodSandboxMetrics,
    RuntimeConfig,
    UpdatePodSandboxResources,
}

/// How a request that is not served is called.
pub open spec fn unserved_name(u: Unserved) -> Seq<char> {
    match u {
        Unserved::Exec => "Exec"@,
        Unserved::Attach => "Attach"@,
        Unserved::PortForward => "PortForward"@,
        Unserved::GetContainerEvents => "GetContainerEvents"@,
        Unserved::UpdateRuntimeConfig => "UpdateRuntimeConfig"@,
        Unserved::UpdateContainerResources => "UpdateContainerResources"@,
        Unserved::ReopenContainerLog => "ReopenContainerLog"@,
        Unserved::CheckpointContainer => "CheckpointContainer"@,
        Unserved::PodSandboxStats => "PodSandboxStats"@,
        Unserved::ListPodSandboxStats => "ListPodSandboxStats"@,
        Unserved::ListMetricDescriptors => "ListMetricDescriptors"@,
        Unserved::ListPodSandboxMetrics => "ListPodSandboxMetrics"@,
        Unserved::RuntimeConfig => "RuntimeConfig"@,
        Unserved::UpdatePodSandboxResources => "UpdatePodSandboxResources"@,
    }
}

/// What a request that is not served is answered.
pub open spec fn unserved_answer(u: Unserved) -> RefusalView {
    RefusalView {
        code: Code::Unimplemented,
        message: unserved_name(u) + ": R1 — see whitepaper §11"@,
    }
}

/// What a request that is not served is answered.
pub fn unserved(u: Unserved) -> (r: Refusal)
    ensures
        r@ == unserved_answer(u),
{
    let name = match u {
        Unserved::Exec => "Exec",
        Unserved::Attach => "Attach",
        Unserved::PortForward => "PortForward",
        Unserved::GetContainerEvents => "GetContainerEvents",
        Unserved::UpdateRuntimeConfig => "UpdateRuntimeConfig",
        Unserved::UpdateContainerResources => "UpdateContainerResources",
        Unserved::ReopenContainerLog => "ReopenContainerLog",
        Unserved::CheckpointContainer => "CheckpointContainer",
        Unserved::PodSandboxStats => "PodSandboxStats",
        Unserved::ListPodSandboxStats => "ListPodSandboxStats",
        Unserved::ListMetricDescriptors => "ListMetricDescriptors",
        Unserved::ListPodSandboxMetrics => "ListPodSandboxMetrics",
        Unserved::RuntimeConfig => "RuntimeConfig",
        Unserved::UpdatePodSandboxResources => "UpdatePodSandboxResources",
    };
    let mut message = name.to_owned();
    message.append(": R1 — see whitepaper §11");
    Refusal { code: Code::Unimplemented, message }
}

/// A sandbox is reported as it was asked for.
pub proof fn law_sandbox_is_told_as_asked(
    config: proto::PodSandboxConfigView,
    stamp_nanos: i64,
    count: u64,
    now_nanos: i64,
)
    requires
        config.metadata is Some,
    ensures
        ({
            let wanted = sandbox_wanted(Some(config))->Ok_0;
            let rec = crate::fake::sandbox::fresh_sandbox(wanted, stamp_nanos, count, now_nanos);
            let told = crate::shell::runtime::sandbox_in_full(
                crate::fake::record::sandbox_status_of(rec),
            );
            &&& sandbox_wanted(Some(config)) is Ok
            &&& told.id == rec.id
            &&& told.metadata == config.metadata
            &&& told.labels == config.labels
            &&& told.annotations == config.annotations
            &&& told.created_at == now_nanos
        }),
{
}

/// A container is reported as it was asked for.
pub proof fn law_container_is_told_as_asked(
    sandbox: Seq<char>,
    config: proto::ContainerConfigView,
    stamp_nanos: i64,
    count: u64,
    now_nanos: i64,
)
    requires
        config.metadata is Some,
    ensures
        ({
            let wanted = container_wanted(Some(config))->Ok_0;
            let rec = crate::fake::container::fresh_container(
                sandbox,
                wanted,
                stamp_nanos,
                count,
                now_nanos,
            );
            let told = crate::shell::runtime::container_in_full(
                crate::fake::record::container_status_of(rec),
            );
            &&& container_wanted(Some(config)) is Ok
            &&& told.id == rec.id
            &&& told.metadata == config.metadata
            &&& config.image is Some ==> told.image == config.image
            &&& told.labels == config.labels
            &&& told.annotations == config.annotations
            &&& told.mounts == config.mounts
            &&& told.log_path == config.log_path
            &&& told.created_at == now_nanos
        }),
{
    let wanted = container_wanted(Some(config))->Ok_0;
    assert(wanted.mounts.map_values(|m: MountView| crate::shell::runtime::mount_told(m))
        =~= config.mounts);
}

/// A request without a configuration, or with one that names nothing, is refused as invalid, and the
/// refusal names what is missing; any other is accepted.
pub proof fn law_only_what_is_missing_is_refused(
    sandbox: Option<proto::PodSandboxConfigView>,
    container: Option<proto::ContainerConfigView>,
)
    ensures
        sandbox_wanted(sandbox) is Ok <==> (sandbox matches Some(c) && c.metadata is Some),
        container_wanted(container) is Ok <==> (container matches Some(c) && c.metadata is Some),
        sandbox_wanted(sandbox) matches Err(e) ==> e.code == Code::InvalidArgument && (if sandbox
            is None {
            "config"@
        } else {
            "config.metadata"@
        }).is_prefix_of(e.message),
        container_wanted(container) matches Err(e) ==> e.code == Code::InvalidArgument && (
        if container is None {
            "config"@
        } else {
            "config.metadata"@
        }).is_prefix_of(e.message),
{
    assert("config"@ =~= ("config"@ + " is required"@).subrange(0, "config"@.len() as int));
    assert("config.metadata"@ =~= ("config.metadata"@ + " is required"@).subrange(
        0,
        "config.metadata"@.len() as int,
    ));
}

/// A container is created as it was asked for: what it runs, with what arguments, where and with what
/// environment, what it mounts and where its log goes. It is asked for neither a terminal nor input.
pub proof fn law_container_is_created_as_asked(config: proto::ContainerConfigView)
    requires
        config.metadata is Some,
    ensures
        container_wanted(Some(config)) matches Ok(w) && {
            &&& w.name == config.metadata->0.name
            &&& w.attempt == config.metadata->0.attempt
            &&& config.image matches Some(i) ==> w.image_ref == i.image
            &&& config.image is None ==> w.image_ref.len() == 0
            &&& w.command == config.command
            &&& w.args == config.args
            &&& w.working_dir == config.working_dir
            &&& w.envs.len() == config.envs.len()
            &&& forall|i: int|
                0 <= i < config.envs.len() ==> (#[trigger] w.envs[i]) == (
                    config.envs[i].key,
                    config.envs[i].value,
                )
            &&& w.mounts.len() == config.mounts.len()
            &&& forall|i: int|
                0 <= i < config.mounts.len() ==> (#[trigger] w.mounts[i]).host_path
                    == config.mounts[i].host_path && w.mounts[i].container_path
                    == config.mounts[i].container_path && w.mounts[i].readonly
                    == config.mounts[i].readonly
            &&& w.labels == config.labels
            &&& w.annotations == config.annotations
            &&& w.log_path == config.log_path
            &&& !w.tty && !w.stdin
        },
{
}

/// A sandbox is run as it was asked for; it has no ports and no network of its own to configure.
pub proof fn law_sandbox_is_run_as_asked(config: proto::PodSandboxConfigView)
    requires
        config.metadata is Some,
    ensures
        sandbox_wanted(Some(config)) matches Ok(w) && {
            &&& w.name == config.metadata->0.name
            &&& w.uid == config.metadata->0.uid
            &&& w.namespace == config.metadata->0.namespace
            &&& w.attempt == config.metadata->0.attempt
            &&& w.labels == config.labels
            &&& w.annotations == config.annotations
            &&& w.log_directory == config.log_directory
            &&& w.hostname.len() == 0 && !w.host_network && w.dns is None
            &&& w.port_mappings.len() == 0
        },
{
}

/// From the request to the process: what a client asks a container to run is what is started, with
/// the environment that it asks for.
pub proof fn law_what_is_asked_for_is_started(
    config: proto::ContainerConfigView,
    stdio: crate::fake::spawn::SpawnStdio,
    new_session: bool,
)
    requires
        config.metadata is Some,
        config.command.len() + config.args.len() > 0,
    ensures
        ({
            let wanted = container_wanted(Some(config))->Ok_0;
            let s = crate::fake::spawn::spawn_of(
                crate::fake::spawn::own_command(wanted),
                wanted,
                stdio,
                new_session,
            );
            &&& seq![s.program] + s.args == config.command + config.args
            &&& config.working_dir.len() > 0 ==> s.cwd == Some(config.working_dir)
            &&& s.envs.len() == config.envs.len()
            &&& forall|i: int|
                0 <= i < config.envs.len() ==> (#[trigger] s.envs[i]) == (
                    config.envs[i].key,
                    config.envs[i].value,
                )
        }),
{
    let wanted = container_wanted(Some(config))->Ok_0;
    crate::fake::spawn::law_process_is_started_as_configured(
        wanted.command + wanted.args,
        wanted,
        stdio,
        new_session,
    );
}

/// A list is told one by one and in order: as many as the backend gave, each under its own name and
/// in its own state.
pub proof fn law_lists_are_told_one_by_one(
    sandboxes: Seq<SandboxStatusView>,
    containers: Seq<ContainerStatusView>,
    i: int,
)
    ensures
        sandboxes_told(sandboxes).len() == sandboxes.len(),
        containers_told(containers).len() == containers.len(),
        0 <= i < sandboxes.len() ==> sandboxes_told(sandboxes)[i].id == sandboxes[i].id
            && crate::shell::runtime::sandbox_state_of(sandboxes_told(sandboxes)[i].state)
            == sandboxes[i].state && sandboxes_told(sandboxes)[i].created_at
            == sandboxes[i].created_at_nanos && sandboxes_told(sandboxes)[i].labels
            == sandboxes[i].config.labels,
        0 <= i < containers.len() ==> containers_told(containers)[i].id == containers[i].id
            && containers_told(containers)[i].pod_sandbox_id == containers[i].sandbox
            && crate::shell::runtime::container_state_of(containers_told(containers)[i].state)
            == containers[i].state && containers_told(containers)[i].created_at
            == containers[i].created_at_nanos && containers_told(containers)[i].labels
            == containers[i].config.labels,
{
}

/// What the containers use is told one by one and in order, each under its own name. Where no status
/// could be had, nothing more is told of any of them.
pub proof fn law_uses_are_told_one_by_one(
    recs: Seq<ContainerStatsRecView>,
    known: Map<Seq<char>, ContainerStatusView>,
    fault: BackendError,
    i: int,
)
    requires
        0 <= i < recs.len(),
    ensures
        ({
            let told = uses_told(recs, known);
            let unknown = uses_told(recs, known_statuses(Err(fault)));
            &&& told.len() == recs.len() && unknown.len() == recs.len()
            &&& told[i].attributes is Some && told[i].attributes->0.id == recs[i].id
            &&& told[i].attributes->0.metadata is Some <==> known.dom().contains(recs[i].id)
            &&& known.dom().contains(recs[i].id) ==> told[i].attributes->0.labels
                == known[recs[i].id].config.labels
            &&& unknown[i].attributes is Some && unknown[i].attributes->0.metadata is None
        }),
{
}

/// A container is known by its name if there is a status of that name; of several the last counts.
pub proof fn law_containers_are_known_by_name(
    statuses: Vec<ContainerStatus>,
    id: Seq<char>,
    j: int,
)
    requires
        -1 <= j < statuses@.len(),
        j >= 0 ==> statuses@[j]@.id == id,
        forall|k: int| j < k < statuses@.len() ==> (#[trigger] statuses@[k])@.id != id,
    ensures
        found(known_statuses(Ok(statuses)), id) == if j >= 0 {
            Some(statuses@[j]@)
        } else {
            None
        },
{
    let all = statuses.deep_view();
    assert forall|k: int| j < k < all.len() implies (#[trigger] all[k]).id != id by {
        assert(all[k] == statuses@[k]@);
    }
    lemma_last_is_found(all, id, j);
}

proof fn lemma_last_is_found(all: Seq<ContainerStatusView>, id: Seq<char>, j: int)
    requires
        -1 <= j < all.len(),
        j >= 0 ==> all[j].id == id,
        forall|k: int| j < k < all.len() ==> (#[trigger] all[k]).id != id,
    ensures
        found(crate::text_map::indexed(all, |s: ContainerStatusView| s.id), id) == if j >= 0 {
            Some(all[j])
        } else {
            None
        },
    decreases all.len(),
{
    if all.len() > 0 && j < all.len() - 1 {
        let rest = all.drop_last();
        assert forall|k: int| j < k < rest.len() implies (#[trigger] rest[k]).id != id by {
            assert(rest[k] == all[k]);
        }
        lemma_last_is_found(rest, id, j);
    }
}

/// The runtime tells its own name and version to whoever asks, and the version asked for.
pub proof fn law_version_comes_back(asked: Seq<char>, other: Seq<char>)
    ensures
        version_told(asked).version == asked,
        version_told(asked).runtime_name == "lightr"@,
        version_told(asked).runtime_version == "0.1.0"@,
        version_told(asked).runtime_api_version == "v1"@,
        version_told(asked).runtime_name == version_told(other).runtime_name,
{
}

/// The runtime is ready, and its network is ready; nothing else is told of it.
pub proof fn law_runtime_is_ready()
    ensures
        conditions().len() == 2,
        conditions()[0].kind == "RuntimeReady"@ && conditions()[0].status,
        conditions()[1].kind == "NetworkReady"@ && conditions()[1].status,
        conditions()[1].message == "r0-fake-network"@,
{
}

/// A request that is not served is refused as such, by its own name.
pub proof fn law_unserved_is_refused_by_name(u: Unserved)
    ensures
        unserved_answer(u).code == Code::Unimplemented,
        unserved_name(u).is_prefix_of(unserved_answer(u).message),
        unserved_answer(u).message.len() > unserved_name(u).len(),
{
    reveal_strlit(": R1 — see whitepaper §11");
    let m = unserved_answer(u).message;
    assert(unserved_name(u) =~= m.subrange(0, unserved_name(u).len() as int));
}

} // verus!
