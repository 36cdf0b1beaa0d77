//! The runtime service.

use lightr_cri::shell::image::ImageShell;
use lightr_cri::shell::proto;
use lightr_cri::shell::rpc;
use lightr_cri::shell::rpc::Unserved;
use lightr_cri::shell::runtime::{
    build_container, build_container_stats, build_container_status, build_pod_sandbox,
    build_sandbox_status, map_container_state, map_sandbox_state, proto_container_filter,
    proto_sandbox_filter, proto_stats_filter, Code, RuntimeShell,
};
use lightr_cri::text_map::TextMap;
use lightr_cri::types::{
    BackendError, ContainerConfig, ContainerFilter, ContainerId, ContainerState, ContainerStatsRec,
    ContainerStatus, Mount, SandboxConfig, SandboxFilter, SandboxId, SandboxState, SandboxStatus,
};
use std::sync::Arc;

#[test]
fn sandbox_state_ready() {
    assert_eq!(
        map_sandbox_state(SandboxState::Ready),
        proto::PodSandboxState::SandboxReady as i32
    );
}

#[test]
fn sandbox_state_not_ready() {
    assert_eq!(
        map_sandbox_state(SandboxState::NotReady),
        proto::PodSandboxState::SandboxNotready as i32
    );
}

#[test]
fn container_state_created() {
    assert_eq!(
        map_container_state(ContainerState::Created),
        proto::ContainerState::ContainerCreated as i32
    );
}

#[test]
fn container_state_running() {
    assert_eq!(
        map_container_state(ContainerState::Running),
        proto::ContainerState::ContainerRunning as i32
    );
}

#[test]
fn container_state_exited() {
    assert_eq!(
        map_container_state(ContainerState::Exited),
        proto::ContainerState::ContainerExited as i32
    );
}

#[test]
fn container_state_unknown() {
    assert_eq!(
        map_container_state(ContainerState::Unknown),
        proto::ContainerState::ContainerUnknown as i32
    );
}

#[test]
fn sandbox_filter_empty() {
    let f = proto_sandbox_filter(None);
    assert_eq!(f, SandboxFilter::default());
}

#[test]
fn sandbox_filter_with_id_and_state() {
    let proto_f = proto::PodSandboxFilter {
        id: "abc".to_string(),
        state: Some(proto::PodSandboxStateValue {
            state: proto::PodSandboxState::SandboxReady as i32,
        }),
        label_selector: TextMap::new(),
    };
    let f = proto_sandbox_filter(Some(proto_f));
    assert_eq!(f.id, Some(SandboxId("abc".to_string())));
    assert_eq!(f.state, Some(SandboxState::Ready));
}

#[test]
fn sandbox_filter_not_ready_state() {
    let proto_f = proto::PodSandboxFilter {
        id: String::new(),
        state: Some(proto::PodSandboxStateValue {
            state: proto::PodSandboxState::SandboxNotready as i32,
        }),
        label_selector: TextMap::new(),
    };
    let f = proto_sandbox_filter(Some(proto_f));
    assert_eq!(f.id, None);
    assert_eq!(f.state, Some(SandboxState::NotReady));
}

#[test]
fn container_filter_empty() {
    let f = proto_container_filter(None);
    assert_eq!(f, ContainerFilter::default());
}

#[test]
fn container_filter_with_fields() {
    let mut labels = TextMap::new();
    labels.insert("app".to_string(), "nginx".to_string());
    let proto_f = proto::ContainerFilter {
        id: "cid".to_string(),
        pod_sandbox_id: "sid".to_string(),
        state: Some(proto::ContainerStateValue {
            state: proto::ContainerState::ContainerRunning as i32,
        }),
        label_selector: labels,
    };
    let f = proto_container_filter(Some(proto_f));
    assert_eq!(f.id, Some(ContainerId("cid".to_string())));
    assert_eq!(f.sandbox, Some(SandboxId("sid".to_string())));
    assert_eq!(f.state, Some(ContainerState::Running));
    assert_eq!(f.label_selector.get("app"), Some(&"nginx".to_string()));
}

#[test]
fn stats_filter_maps_sandbox_id() {
    let proto_f = proto::ContainerStatsFilter {
        id: String::new(),
        pod_sandbox_id: "sandbox-1".to_string(),
        label_selector: TextMap::new(),
    };
    let f = proto_stats_filter(Some(proto_f));
    assert_eq!(f.sandbox, Some(SandboxId("sandbox-1".to_string())));
    assert_eq!(f.id, None);
    assert_eq!(f.state, None);
}

fn text(s: &str) -> String {
    s.to_string()
}

fn labels() -> TextMap<String> {
    let mut m = TextMap::new();
    m.insert(text("k"), text("v"));
    m
}

fn sandbox_status() -> SandboxStatus {
    SandboxStatus {
        id: SandboxId(text("sb")),
        config: SandboxConfig {
            name: text("n"),
            uid: text("u"),
            namespace: text("ns"),
            attempt: 3,
            labels: labels(),
            annotations: TextMap::new(),
            log_directory: text("/logs"),
            hostname: String::new(),
            host_network: false,
            dns: None,
            port_mappings: vec![],
        },
        state: SandboxState::NotReady,
        created_at_nanos: 5,
        ip: None,
        netns_path: None,
    }
}

fn container_status(id: &str) -> ContainerStatus {
    ContainerStatus {
        id: ContainerId(text(id)),
        sandbox: SandboxId(text("sb")),
        config: ContainerConfig {
            name: text("c"),
            attempt: 1,
            image_ref: text("img"),
            command: vec![],
            args: vec![],
            working_dir: String::new(),
            envs: vec![],
            mounts: vec![Mount {
                container_path: text("/in"),
                host_path: text("/out"),
                readonly: true,
            }],
            labels: labels(),
            annotations: TextMap::new(),
            log_path: text("c.log"),
            tty: false,
            stdin: false,
        },
        state: ContainerState::Exited,
        created_at_nanos: 1,
        started_at_nanos: 2,
        finished_at_nanos: 3,
        exit_code: 4,
        reason: text("r"),
        message: text("m"),
    }
}

#[test]
fn sandbox_is_told_in_full_and_listed() {
    let s = sandbox_status();
    let full = build_sandbox_status(&s);
    assert_eq!(full.id, "sb");
    assert_eq!(full.state, 1);
    assert_eq!(full.created_at, 5);
    assert_eq!(full.labels, labels());
    let meta = full.metadata.unwrap();
    assert_eq!((meta.name, meta.uid, meta.namespace, meta.attempt),
        (text("n"), text("u"), text("ns"), 3));
    let listed = build_pod_sandbox(&s);
    assert_eq!(listed.id, "sb");
    assert_eq!(rpc::list_pod_sandbox(&vec![s]), vec![listed]);
}

#[test]
fn container_is_told_in_full_and_listed() {
    let s = container_status("ct");
    let full = build_container_status(&s);
    assert_eq!(full.state, 2);
    assert_eq!((full.created_at, full.started_at, full.finished_at), (1, 2, 3));
    assert_eq!(full.exit_code, 4);
    assert_eq!(full.image_id, "img");
    assert_eq!(full.mounts[0].host_path, "/out");
    assert!(full.mounts[0].readonly);
    assert_eq!(full.stop_signal, 0);
    let listed = build_container(&s);
    assert_eq!(listed.pod_sandbox_id, "sb");
    assert_eq!(rpc::list_containers(&vec![s]), vec![listed]);
}

fn stats(id: &str) -> ContainerStatsRec {
    ContainerStatsRec {
        id: ContainerId(text(id)),
        timestamp_nanos: 9,
        cpu_usage_core_nanos: 10,
        memory_working_set_bytes: 11,
    }
}

#[test]
fn use_is_told_with_its_container() {
    let with = build_container_stats(&stats("ct"), Some(&container_status("ct")));
    let cpu = with.cpu.unwrap();
    assert_eq!(cpu.timestamp, 9);
    assert_eq!(cpu.usage_core_nano_seconds.unwrap().value, 10);
    assert_eq!(with.memory.unwrap().working_set_bytes.unwrap().value, 11);
    assert_eq!(with.writable_layer.unwrap().used_bytes.unwrap().value, 0);
    assert_eq!(with.attributes.unwrap().metadata.unwrap().name, "c");
    let without = build_container_stats(&stats("ct"), None).attributes.unwrap();
    assert_eq!(without.id, "ct");
    assert_eq!(without.metadata, None);
    assert_eq!(without.labels, TextMap::new());
}

#[test]
fn uses_are_matched_by_name() {
    let statuses = Ok(vec![container_status("b"), container_status("a")]);
    let told = rpc::list_container_stats(&vec![stats("a"), stats("x")], statuses);
    assert!(told[0].attributes.as_ref().unwrap().metadata.is_some());
    assert!(told[1].attributes.as_ref().unwrap().metadata.is_none());
    let failed = Err(BackendError::Internal(text("x")));
    let told = rpc::list_container_stats(&vec![stats("a")], failed);
    assert!(told[0].attributes.as_ref().unwrap().metadata.is_none());
    let one = rpc::container_stats(&stats("a"), &Ok(container_status("a")));
    assert!(one.attributes.unwrap().metadata.is_some());
    let one = rpc::container_stats(&stats("a"), &Err(BackendError::NotFound(text("a"))));
    assert!(one.attributes.unwrap().metadata.is_none());
}

#[test]
fn version_and_status_are_fixed() {
    let v = rpc::version(proto::VersionRequest { version: text("v9") });
    assert_eq!(v.version, "v9");
    assert_eq!(v.runtime_name, "lightr");
    assert_eq!(v.runtime_version, "0.1.0");
    assert_eq!(v.runtime_api_version, "v1");
    let s = rpc::status();
    assert_eq!(s.conditions.len(), 2);
    assert_eq!(s.conditions[0].kind, "RuntimeReady");
    assert_eq!(s.conditions[1].kind, "NetworkReady");
    assert!(s.conditions[1].status);
    assert_eq!(s.conditions[1].message, "r0-fake-network");
}

#[test]
fn sandbox_request_needs_its_parts() {
    assert_eq!(rpc::run_pod_sandbox(None).unwrap_err().message, "config is required");
    let mut c = proto::PodSandboxConfig {
        metadata: None,
        labels: labels(),
        annotations: TextMap::new(),
        log_directory: text("/logs"),
    };
    let e = rpc::run_pod_sandbox(Some(c)).unwrap_err();
    assert_eq!(e.message, "config.metadata is required");
    assert_eq!(e.code, Code::InvalidArgument);
    c = proto::PodSandboxConfig {
        metadata: Some(proto::PodSandboxMetadata {
            name: text("n"),
            uid: text("u"),
            namespace: text("ns"),
            attempt: 2,
        }),
        labels: labels(),
        annotations: TextMap::new(),
        log_directory: text("/logs"),
    };
    let wanted = rpc::run_pod_sandbox(Some(c)).unwrap();
    assert_eq!(wanted.name, "n");
    assert_eq!(wanted.attempt, 2);
    assert_eq!(wanted.labels, labels());
    assert_eq!(wanted.log_directory, "/logs");
}

#[test]
fn container_request_needs_its_parts() {
    assert_eq!(rpc::create_container(None).unwrap_err().message, "config is required");
    let config = |metadata, image| proto::ContainerConfig {
        metadata,
        image,
        command: vec![text("/bin/sh")],
        args: vec![text("-c")],
        working_dir: text("/w"),
        envs: vec![proto::KeyValue { key: text("K"), value: text("V") }],
        mounts: vec![proto::Mount {
            container_path: text("/in"),
            host_path: text("/out"),
            readonly: true,
        }],
        labels: labels(),
        annotations: TextMap::new(),
        log_path: text("l"),
    };
    let e = rpc::create_container(Some(config(None, None))).unwrap_err();
    assert_eq!(e.message, "config.metadata is required");
    let meta = || Some(proto::ContainerMetadata { name: text("c"), attempt: 1 });
    let wanted = rpc::create_container(Some(config(meta(), None))).unwrap();
    assert_eq!(wanted.image_ref, "");
    assert_eq!(wanted.envs, vec![(text("K"), text("V"))]);
    assert_eq!(wanted.mounts[0].container_path, "/in");
    assert!(!wanted.tty && !wanted.stdin);
    let image = Some(proto::ImageSpec { image: text("img") });
    let wanted = rpc::create_container(Some(config(meta(), image))).unwrap();
    assert_eq!(wanted.image_ref, "img");
}

#[test]
fn unserved_requests_are_named() {
    let r = rpc::unserved(Unserved::Exec);
    assert_eq!(r.code, Code::Unimplemented);
    assert_eq!(r.message, "Exec: R1 \u{2014} see whitepaper \u{a7}11");
    let r = rpc::unserved(Unserved::UpdatePodSandboxResources);
    assert_eq!(r.message, "UpdatePodSandboxResources: R1 \u{2014} see whitepaper \u{a7}11");
}

#[test]
fn unknown_state_numbers_are_taken_so() {
    let f = proto_sandbox_filter(Some(proto::PodSandboxFilter {
        id: String::new(),
        state: Some(proto::PodSandboxStateValue { state: 42 }),
        label_selector: TextMap::new(),
    }));
    assert_eq!(f.state, Some(SandboxState::NotReady));
    for (n, s) in [
        (0, ContainerState::Created),
        (2, ContainerState::Exited),
        (3, ContainerState::Unknown),
        (-1, ContainerState::Unknown),
    ] {
        let f = proto_container_filter(Some(proto::ContainerFilter {
            id: String::new(),
            pod_sandbox_id: String::new(),
            state: Some(proto::ContainerStateValue { state: n }),
            label_selector: TextMap::new(),
        }));
        assert_eq!(f.state, Some(s));
        assert_eq!(f.id, None);
        assert_eq!(f.sandbox, None);
    }
    assert_eq!(proto_stats_filter(None), ContainerFilter::default());
}

#[test]
fn shells_hold_their_backend() {
    let backend = Arc::new(7u8);
    assert_eq!(*RuntimeShell::new(backend.clone()).backend, 7);
    assert_eq!(*ImageShell::new(backend).backend, 7);
}
