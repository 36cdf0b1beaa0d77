//! The backend, driven against a host that lives in memory.

use lightr_cri::fake::container::ExitReport;
use lightr_cri::fake::disk::{write_result, WriteFault};
use lightr_cri::fake::exec::{
    wait, ExecAction, ExecEvent, ExecSync, OpenAction, OpenEvent, OpenExec, Polled, SessionShape,
    Waited,
};
use lightr_cri::fake::record::{ContainerRecord, ImageDiskRecord, SandboxRecord};
use lightr_cri::fake::remove::{RemoveAction, RemoveEvent, RemoveSandbox};
use lightr_cri::fake::spawn::{SpawnSpec, SpawnStdio};
use lightr_cri::fake::start::{PipeEnds, StartAction, StartContainer, StartEvent, TerminalFault};
use lightr_cri::fake::stats::{proc_stats, read_proc_stats, Sample};
use lightr_cri::fake::stop::{StopAction, StopContainer, StopEvent};
use lightr_cri::fake::{FakeBackend, FoundContainer};
use lightr_cri::log::Tee;
use lightr_cri::text_map::TextMap;
use lightr_cri::types::{
    BackendError, ContainerConfig, ContainerFilter, ContainerId, ContainerState, ContainerStatsRec,
    ExecResult, FsInfo, PulledImage, SandboxConfig, SandboxFilter, SandboxId, SandboxState,
};

/// A host: files, processes and a clock.
struct Host {
    clock: i64,
    count: u64,
    next_pid: u32,
    alive: Vec<u32>,
    stubborn: Vec<u32>,
    signals: Vec<(u32, i32)>,
    sandboxes: Vec<SandboxRecord>,
    containers: Vec<ContainerRecord>,
    images: Vec<ImageDiskRecord>,
    logs: Vec<(String, Vec<u8>)>,
    write_fault: Option<&'static str>,
    spawn_fault: Option<&'static str>,
    pipe_fault: Option<&'static str>,
    terminal_fault: bool,
    log_fault: Option<&'static str>,
}

/// What a command does: its output, and its exit code unless it runs on.
fn behave(spec: &SpawnSpec) -> (Vec<u8>, Option<i32>) {
    if spec.program == "/bin/echo" {
        (format!("{}\n", spec.args.join(" ")).into_bytes(), Some(0))
    } else if spec.program == "/bin/sh" && spec.args[1].starts_with("exit ") {
        (Vec::new(), Some(spec.args[1][5..].parse().unwrap()))
    } else if spec.program == "/bin/sh" && spec.args[1].starts_with("echo ") {
        (format!("{}\n", &spec.args[1][5..]).into_bytes(), Some(0))
    } else {
        (Vec::new(), None)
    }
}

impl Host {
    fn new() -> Host {
        Host {
            clock: 1_000,
            count: 0,
            next_pid: 100,
            alive: vec![],
            stubborn: vec![],
            signals: vec![],
            sandboxes: vec![],
            containers: vec![],
            images: vec![],
            logs: vec![],
            write_fault: None,
            spawn_fault: None,
            pipe_fault: None,
            terminal_fault: false,
            log_fault: None,
        }
    }

    fn now(&mut self) -> i64 {
        self.clock += 1;
        self.clock
    }

    fn ticket(&mut self) -> (i64, u64) {
        let t = (self.now(), self.count);
        self.count += 1;
        t
    }

    fn written(&self) -> Result<(), WriteFault> {
        match self.write_fault {
            None => Ok(()),
            Some(e) => Err(WriteFault::Io(e.to_string())),
        }
    }

    fn write_sandbox(&mut self, rec: &SandboxRecord) -> Result<(), WriteFault> {
        self.written()?;
        self.sandboxes.retain(|r| r.id != rec.id);
        self.sandboxes.push(rec.clone());
        Ok(())
    }

    fn write_container(&mut self, rec: &ContainerRecord) -> Result<(), WriteFault> {
        self.written()?;
        self.containers.retain(|r| r.id != rec.id);
        self.containers.push(rec.clone());
        Ok(())
    }

    fn spawn(&mut self, runs_on: bool) -> Result<u32, String> {
        if let Some(e) = self.spawn_fault {
            return Err(e.to_string());
        }
        let pid = self.next_pid;
        self.next_pid += 1;
        if runs_on {
            self.alive.push(pid);
        }
        Ok(pid)
    }

    fn signal(&mut self, pid: u32, signal: i32) {
        self.signals.push((pid, signal));
        if signal == 9 || !self.stubborn.contains(&pid) {
            self.alive.retain(|p| *p != pid);
        }
    }
}

struct Driver {
    host: Host,
    backend: FakeBackend,
}

impl Driver {
    fn new() -> Driver {
        let (backend, rewrites) = FakeBackend::open("/state".to_string(), &vec![], &vec![], &vec![]);
        assert!(rewrites.is_empty());
        Driver { host: Host::new(), backend }
    }

    fn reopen(mut self) -> Driver {
        let mut found = vec![];
        for rec in &self.host.containers {
            self.host.clock += 1;
            found.push(FoundContainer {
                rec: rec.clone(),
                alive: self.host.alive.contains(&rec.pid),
                now_nanos: self.host.clock,
            });
        }
        let (backend, rewrites) = FakeBackend::open(
            "/state".to_string(),
            &self.host.sandboxes,
            &found,
            &self.host.images,
        );
        for rec in &rewrites {
            self.host.write_container(rec).unwrap();
        }
        Driver { host: self.host, backend }
    }

    fn run_sandbox(&mut self, cfg: SandboxConfig) -> Result<SandboxId, BackendError> {
        let (stamp, count) = self.host.ticket();
        let now = self.host.now();
        let rec = self.backend.run_sandbox(cfg, stamp, count, now);
        let written = self.host.write_sandbox(&rec);
        self.backend.run_sandbox_written(rec, written)
    }

    fn stop_sandbox(&mut self, id: &SandboxId) -> Result<(), BackendError> {
        match self.backend.stop_sandbox(id) {
            None => Ok(()),
            Some(rec) => write_result(self.host.write_sandbox(&rec)),
        }
    }

    fn stop_event(host: &mut Host, action: StopAction) -> Result<StopEvent, Result<(), BackendError>> {
        Ok(match action {
            StopAction::Signal { pid, signal } => {
                host.signal(pid, signal);
                StopEvent::Signalled
            }
            StopAction::Settle { pid, millis } => {
                assert_eq!(millis, 100);
                StopEvent::Settled { alive: host.alive.contains(&pid) }
            }
            StopAction::ReadClock => StopEvent::Clock(host.now()),
            StopAction::Write(rec) => StopEvent::Written(host.write_container(&rec)),
            StopAction::Done(r) => return Err(r),
        })
    }

    fn remove_sandbox(&mut self, id: &SandboxId) -> Result<(), BackendError> {
        let (mut m, mut action) = RemoveSandbox::begin(&mut self.backend, id);
        loop {
            let event = match action {
                RemoveAction::WriteSandbox(rec) => {
                    RemoveEvent::Written(self.host.write_sandbox(&rec))
                }
                RemoveAction::Stop(a) => match Self::stop_event(&mut self.host, a) {
                    Ok(e) => RemoveEvent::Stop(e),
                    Err(_) => unreachable!(),
                },
                RemoveAction::DeleteContainer(id) => {
                    self.host.containers.retain(|r| r.id != id);
                    RemoveEvent::Deleted
                }
                RemoveAction::DeleteSandbox(id) => {
                    self.host.sandboxes.retain(|r| r.id != id);
                    RemoveEvent::Deleted
                }
                RemoveAction::Done(r) => return r,
            };
            action = m.next(&mut self.backend, event);
        }
    }

    fn create_container(
        &mut self,
        sandbox: &SandboxId,
        cfg: ContainerConfig,
    ) -> Result<ContainerId, BackendError> {
        let (stamp, count) = self.host.ticket();
        let now = self.host.now();
        let rec = self.backend.create_container(sandbox, cfg, stamp, count, now)?;
        let written = self.host.write_container(&rec);
        self.backend.create_container_written(rec, written)
    }

    fn start_container(&mut self, id: &ContainerId) -> Result<(), BackendError> {
        let (mut m, mut action) = StartContainer::begin(&self.backend, id)?;
        let mut log = None;
        let mut output = vec![];
        let mut input = false;
        loop {
            let event = match action {
                StartAction::OpenLog { directory, path } => {
                    StartEvent::Logged(match self.host.log_fault {
                        Some(e) => Err(e.to_string()),
                        None => {
                            let name = format!("{directory}/{path}");
                            self.host.logs.push((name, vec![]));
                            log = Some(self.host.logs.len() - 1);
                            Ok(())
                        }
                    })
                }
                StartAction::OpenTerminal => {
                    StartEvent::TerminalOpened(if self.host.terminal_fault {
                        Err(TerminalFault::Open("ENXIO".to_string()))
                    } else {
                        Ok(())
                    })
                }
                StartAction::ReadClock => StartEvent::Clock(self.host.now()),
                StartAction::Write(rec) => StartEvent::Written(self.host.write_container(&rec)),
                StartAction::Spawn(spec) => {
                    assert!(spec.new_session);
                    input = spec.stdio == SpawnStdio::Pipes { stdin: true };
                    let (out, code) = behave(&spec);
                    output = out;
                    StartEvent::Spawned(self.host.spawn(code.is_none()))
                }
                StartAction::TakePipes => StartEvent::PipesTaken(match self.host.pipe_fault {
                    Some(e) => Err(e.to_string()),
                    None => {
                        if let Some(i) = log {
                            let mut tee = Tee::new();
                            for line in tee.feed("stdout", &output, 1, 2) {
                                self.host.logs[i].1.extend(line);
                            }
                            self.host.logs[i].1.extend(tee.end("stdout", 1, 2).unwrap_or_default());
                        }
                        Ok(PipeEnds { stdout: true, stderr: true, stdin: input })
                    }
                }),
                StartAction::Watch { pid } => {
                    assert!(pid >= 100);
                    StartEvent::Watched
                }
                StartAction::Done(r) => return r,
            };
            action = m.next(&mut self.backend, event);
        }
    }

    fn stop_container(&mut self, id: &ContainerId, _grace_seconds: i64) -> Result<(), BackendError> {
        let (mut m, mut action) = StopContainer::begin(&self.backend, id);
        loop {
            match Self::stop_event(&mut self.host, action) {
                Ok(event) => action = m.next(&mut self.backend, event),
                Err(r) => return r,
            }
        }
    }

    fn remove_container(&mut self, id: &ContainerId) -> Result<(), BackendError> {
        if self.backend.remove_container(id)? {
            self.host.containers.retain(|r| r.id != *id);
        }
        Ok(())
    }

    fn exec_sync(
        &mut self,
        id: &ContainerId,
        cmd: &Vec<String>,
        timeout_seconds: i64,
    ) -> Result<ExecResult, BackendError> {
        let (mut m, mut action) = ExecSync::begin(&self.backend, id, cmd, timeout_seconds)?;
        let mut output = vec![];
        let mut code = None;
        let mut elapsed_nanos: u128 = 0;
        loop {
            let event = match action {
                ExecAction::Spawn(spec) => {
                    assert_eq!(spec.stdio, SpawnStdio::Capture);
                    (output, code) = behave(&spec);
                    ExecEvent::Spawned(self.host.spawn(code.is_none()).map(|_| ()))
                }
                ExecAction::Poll => ExecEvent::Polled(Ok(match code {
                    Some(_) => Polled::Ended { signal: None, code },
                    None => Polled::Running { elapsed_nanos },
                })),
                ExecAction::Rest { millis } => {
                    elapsed_nanos += millis as u128 * 1_000_000;
                    ExecEvent::Rested
                }
                ExecAction::Kill => ExecEvent::Killed,
                ExecAction::ReadOutput => {
                    ExecEvent::Output { stdout: output.clone(), stderr: vec![] }
                }
                ExecAction::Wait => ExecEvent::Waited(Ok(Waited {
                    signal: None,
                    code,
                    stdout: output.clone(),
                    stderr: vec![],
                })),
                ExecAction::Done(r) => return r,
            };
            action = m.next(event);
        }
    }

    /// The session's streams, what the command writes, and how it ends.
    fn open_exec(
        &mut self,
        id: &ContainerId,
        cmd: &Vec<String>,
        tty: bool,
        stdin: bool,
    ) -> Result<(SessionShape, Vec<u8>, ExitReport), BackendError> {
        let (mut m, mut action) = OpenExec::begin(&self.backend, id, cmd, tty, stdin)?;
        let mut output = vec![];
        let mut code = None;
        loop {
            let event = match action {
                OpenAction::OpenTerminal => OpenEvent::TerminalOpened(Ok(())),
                OpenAction::Spawn(spec) => {
                    assert_eq!(spec.new_session, tty);
                    (output, code) = behave(&spec);
                    OpenEvent::Spawned(self.host.spawn(code.is_none()).map(|_| ()))
                }
                OpenAction::DoubleMaster => OpenEvent::MasterDoubled(Ok(())),
                OpenAction::Done(r) => {
                    return r.map(|s| (s, output, ExitReport::Ended { signal: None, code }))
                }
            };
            action = m.next(event);
        }
    }

    fn pull_image(&mut self, image_ref: &str) -> Result<PulledImage, BackendError> {
        let (rec, report) = self.backend.pull_image(image_ref)?;
        let written = self.host.written();
        if written.is_ok() {
            self.host.images.retain(|r| r.id != rec.id);
            self.host.images.push(rec.clone());
        }
        self.backend.pull_image_written(rec, report, written)
    }

    fn remove_image(&mut self, image_ref: &str) -> Result<(), BackendError> {
        if let Some(id) = self.backend.remove_image(image_ref)? {
            self.host.images.retain(|r| r.id != id);
        }
        Ok(())
    }

    fn image_fs_info(&mut self) -> Result<FsInfo, BackendError> {
        assert!(self.backend.used_bytes().is_some());
        let now = self.host.now();
        self.backend.image_fs_info(now)
    }

    fn container_stats(&mut self, id: &ContainerId) -> Result<ContainerStatsRec, BackendError> {
        let now_nanos = self.host.now();
        let (cpu_nanos, memory_bytes) = match self.backend.stats_pid(id)? {
            Some(_) => (7, 8),
            None => (0, 0),
        };
        self.backend.container_stats(id, Sample { now_nanos, cpu_nanos, memory_bytes })
    }
}

fn minimal_sandbox_cfg(name: &str) -> SandboxConfig {
    SandboxConfig {
        name: name.to_string(),
        uid: "uid-1".to_string(),
        namespace: "ns".to_string(),
        attempt: 0,
        labels: TextMap::new(),
        annotations: TextMap::new(),
        log_directory: String::new(),
        hostname: String::new(),
        host_network: false,
        dns: None,
        port_mappings: vec![],
    }
}

fn minimal_container_cfg(name: &str) -> ContainerConfig {
    ContainerConfig {
        name: name.to_string(),
        attempt: 0,
        image_ref: "busybox:latest".to_string(),
        command: vec!["/bin/sleep".to_string()],
        args: vec!["10".to_string()],
        working_dir: String::new(),
        envs: vec![],
        mounts: vec![],
        labels: TextMap::new(),
        annotations: TextMap::new(),
        log_path: String::new(),
        tty: false,
        stdin: false,
    }
}

fn sleeping(name: &str, seconds: &str) -> ContainerConfig {
    let mut cfg = minimal_container_cfg(name);
    cfg.command = vec!["/bin/sleep".to_string()];
    cfg.args = vec![seconds.to_string()];
    cfg
}

fn text(s: &str) -> String {
    s.to_string()
}

// ---- sandboxes ----

#[test]
fn sandbox_run_stop_remove() {
    let mut d = Driver::new();
    let id = d.run_sandbox(minimal_sandbox_cfg("test-sb")).unwrap();

    let status = d.backend.sandbox_status(&id).unwrap();
    assert_eq!(status.state, SandboxState::Ready);

    d.stop_sandbox(&id).unwrap();
    let status2 = d.backend.sandbox_status(&id).unwrap();
    assert_eq!(status2.state, SandboxState::NotReady);

    d.remove_sandbox(&id).unwrap();
    let result = d.backend.sandbox_status(&id);
    assert!(matches!(result, Err(BackendError::NotFound(_))));
    assert!(d.host.sandboxes.is_empty());
}

#[test]
fn sandbox_stop_idempotent() {
    let mut d = Driver::new();
    let id = d.run_sandbox(minimal_sandbox_cfg("sb")).unwrap();
    d.stop_sandbox(&id).unwrap();
    d.stop_sandbox(&id).unwrap();
    d.stop_sandbox(&id).unwrap();
}

#[test]
fn sandbox_remove_idempotent() {
    let mut d = Driver::new();
    let id = d.run_sandbox(minimal_sandbox_cfg("sb")).unwrap();
    d.remove_sandbox(&id).unwrap();
    d.remove_sandbox(&id).unwrap();
}

#[test]
fn sandbox_stop_nonexistent_is_ok() {
    let mut d = Driver::new();
    let id = SandboxId("not-there".to_string());
    d.stop_sandbox(&id).unwrap();
}

#[test]
fn list_sandboxes_filter_state() {
    let mut d = Driver::new();
    let id1 = d.run_sandbox(minimal_sandbox_cfg("a")).unwrap();
    let id2 = d.run_sandbox(minimal_sandbox_cfg("b")).unwrap();
    d.stop_sandbox(&id1).unwrap();

    let filter = SandboxFilter { state: Some(SandboxState::Ready), ..Default::default() };
    let ready = d.backend.list_sandboxes(&filter).unwrap();
    assert_eq!(ready.len(), 1);
    assert_eq!(ready[0].id, id2);

    let filter2 = SandboxFilter { state: Some(SandboxState::NotReady), ..Default::default() };
    let not_ready = d.backend.list_sandboxes(&filter2).unwrap();
    assert_eq!(not_ready.len(), 1);
    assert_eq!(not_ready[0].id, id1);
}

#[test]
fn list_sandboxes_filter_label() {
    let mut d = Driver::new();
    let mut cfg = minimal_sandbox_cfg("labeled");
    cfg.labels.insert("env".to_string(), "test".to_string());
    let id = d.run_sandbox(cfg).unwrap();
    d.run_sandbox(minimal_sandbox_cfg("unlabeled")).unwrap();

    let mut sel = TextMap::new();
    sel.insert("env".to_string(), "test".to_string());
    let filter = SandboxFilter { label_selector: sel, ..Default::default() };
    let result = d.backend.list_sandboxes(&filter).unwrap();
    assert_eq!(result.len(), 1);
    assert_eq!(result[0].id, id);
}

// ---- containers ----

#[test]
fn container_create_not_found_sandbox() {
    let mut d = Driver::new();
    let err = d
        .create_container(&SandboxId("ghost".to_string()), minimal_container_cfg("c"))
        .unwrap_err();
    assert!(matches!(err, BackendError::NotFound(_)));
}

#[test]
fn container_created_state() {
    let mut d = Driver::new();
    let sb = d.run_sandbox(minimal_sandbox_cfg("sb")).unwrap();
    let cid = d.create_container(&sb, minimal_container_cfg("c")).unwrap();
    let status = d.backend.container_status(&cid).unwrap();
    assert_eq!(status.state, ContainerState::Created);
    assert_eq!(status.started_at_nanos, 0);
    assert_eq!(status.finished_at_nanos, 0);
}

#[test]
fn container_start_only_from_created() {
    let mut d = Driver::new();
    let sb = d.run_sandbox(minimal_sandbox_cfg("sb")).unwrap();
    let cid = d.create_container(&sb, sleeping("c", "60")).unwrap();
    d.start_container(&cid).unwrap();

    let err = d.start_container(&cid).unwrap_err();
    assert!(matches!(err, BackendError::FailedPrecondition(_)));

    d.stop_container(&cid, 0).unwrap();

    let err2 = d.start_container(&cid).unwrap_err();
    assert!(matches!(err2, BackendError::FailedPrecondition(_)));

    d.remove_container(&cid).unwrap();
}

#[test]
fn container_stop_idempotent() {
    let mut d = Driver::new();
    let sb = d.run_sandbox(minimal_sandbox_cfg("sb")).unwrap();
    let cid = d.create_container(&sb, minimal_container_cfg("c")).unwrap();

    d.stop_container(&cid, 0).unwrap();
    let status = d.backend.container_status(&cid).unwrap();
    assert_eq!(status.state, ContainerState::Created);

    let cid2 = d.create_container(&sb, sleeping("c2", "60")).unwrap();
    d.start_container(&cid2).unwrap();
    d.stop_container(&cid2, 0).unwrap();
    d.stop_container(&cid2, 0).unwrap();
    d.remove_container(&cid2).unwrap();
}

#[test]
fn container_remove_while_running_refused() {
    let mut d = Driver::new();
    let sb = d.run_sandbox(minimal_sandbox_cfg("sb")).unwrap();
    let cid = d.create_container(&sb, sleeping("c", "60")).unwrap();
    d.start_container(&cid).unwrap();

    let err = d.remove_container(&cid).unwrap_err();
    assert!(matches!(err, BackendError::FailedPrecondition(_)));

    d.stop_container(&cid, 0).unwrap();
    d.remove_container(&cid).unwrap();
}

#[test]
fn container_remove_idempotent() {
    let mut d = Driver::new();
    let sb = d.run_sandbox(minimal_sandbox_cfg("sb")).unwrap();
    let cid = d.create_container(&sb, minimal_container_cfg("c")).unwrap();
    d.remove_container(&cid).unwrap();
    d.remove_container(&cid).unwrap();
}

#[test]
fn sandbox_remove_cascades_containers() {
    let mut d = Driver::new();
    let sb = d.run_sandbox(minimal_sandbox_cfg("sb")).unwrap();
    let cid = d.create_container(&sb, sleeping("c", "60")).unwrap();
    d.start_container(&cid).unwrap();

    d.remove_sandbox(&sb).unwrap();

    let err = d.backend.container_status(&cid).unwrap_err();
    assert!(matches!(err, BackendError::NotFound(_)));
    let err2 = d.backend.sandbox_status(&sb).unwrap_err();
    assert!(matches!(err2, BackendError::NotFound(_)));
    assert!(d.host.alive.is_empty());
    assert!(d.host.containers.is_empty() && d.host.sandboxes.is_empty());
}

#[test]
fn start_nonexistent_container() {
    let mut d = Driver::new();
    let err = d.start_container(&ContainerId("ghost".to_string())).unwrap_err();
    assert!(matches!(err, BackendError::NotFound(_)));
}

#[test]
fn container_status_not_found() {
    let d = Driver::new();
    let err = d.backend.container_status(&ContainerId("ghost".to_string())).unwrap_err();
    assert!(matches!(err, BackendError::NotFound(_)));
}

// ---- commands ----

#[test]
fn exec_sync_requires_running() {
    let mut d = Driver::new();
    let sb = d.run_sandbox(minimal_sandbox_cfg("sb")).unwrap();
    let cid = d.create_container(&sb, minimal_container_cfg("c")).unwrap();
    let cmd = vec!["/bin/echo".to_string(), "hi".to_string()];
    let err = d.exec_sync(&cid, &cmd, 0).unwrap_err();
    assert!(matches!(err, BackendError::FailedPrecondition(_)));
}

#[test]
fn exec_sync_runs_and_captures() {
    let mut d = Driver::new();
    let sb = d.run_sandbox(minimal_sandbox_cfg("sb")).unwrap();
    let cid = d.create_container(&sb, sleeping("c", "60")).unwrap();
    d.start_container(&cid).unwrap();

    let cmd = vec!["/bin/echo".to_string(), "hello".to_string()];
    let result = d.exec_sync(&cid, &cmd, 5).unwrap();
    assert_eq!(result.exit_code, 0);
    assert_eq!(result.stdout.trim_ascii_end(), b"hello");
    assert_eq!(d.exec_sync(&cid, &cmd, 0).unwrap(), result);

    d.stop_container(&cid, 0).unwrap();
    d.remove_container(&cid).unwrap();
    d.remove_sandbox(&sb).unwrap();
}

#[test]
fn exec_sync_captures_exit_code() {
    let mut d = Driver::new();
    let sb = d.run_sandbox(minimal_sandbox_cfg("sb")).unwrap();
    let cid = d.create_container(&sb, sleeping("c", "60")).unwrap();
    d.start_container(&cid).unwrap();

    let cmd = vec!["/bin/sh".to_string(), "-c".to_string(), "exit 42".to_string()];
    let result = d.exec_sync(&cid, &cmd, 5).unwrap();
    assert_eq!(result.exit_code, 42);

    d.stop_container(&cid, 0).unwrap();
    d.remove_container(&cid).unwrap();
}

#[test]
fn exec_sync_timeout() {
    let mut d = Driver::new();
    let sb = d.run_sandbox(minimal_sandbox_cfg("sb")).unwrap();
    let cid = d.create_container(&sb, sleeping("c", "60")).unwrap();
    d.start_container(&cid).unwrap();

    let cmd = vec!["/bin/sleep".to_string(), "60".to_string()];
    let err = d.exec_sync(&cid, &cmd, 1).unwrap_err();
    assert!(matches!(err, BackendError::Internal(ref m) if m.contains("timeout")));

    d.stop_container(&cid, 0).unwrap();
    d.remove_container(&cid).unwrap();
}

// ---- images ----

#[test]
fn pull_image_and_list() {
    let mut d = Driver::new();
    let pulled = d.pull_image("nginx:1.25").unwrap();
    assert_eq!(pulled.ref_name, "nginx:1.25");
    assert!(!pulled.root_hex.is_empty());

    let images = d.backend.list_images().unwrap();
    assert_eq!(images.len(), 1);
    assert_eq!(images[0].ref_name, "nginx:1.25");
}

#[test]
fn image_status_found_and_not_found() {
    let mut d = Driver::new();
    d.pull_image("alpine:3").unwrap();

    let status = d.backend.image_status("alpine:3").unwrap();
    assert!(status.is_some());

    let missing = d.backend.image_status("not:there").unwrap();
    assert!(missing.is_none());
}

#[test]
fn pull_image_invalid_ref() {
    let mut d = Driver::new();
    let err = d.pull_image("").unwrap_err();
    assert!(matches!(err, BackendError::InvalidArgument(_)));

    let err2 = d.pull_image("has space").unwrap_err();
    assert!(matches!(err2, BackendError::InvalidArgument(_)));

    let err3 = d.pull_image("has\ttab").unwrap_err();
    assert!(matches!(err3, BackendError::InvalidArgument(_)));
}

#[test]
fn remove_image_not_found_is_ok() {
    let mut d = Driver::new();
    d.remove_image("not:there").unwrap();
    d.remove_image("not:there").unwrap();
}

#[test]
fn remove_image_in_use_by_running_container() {
    let mut d = Driver::new();
    d.pull_image("busy:latest").unwrap();
    let sb = d.run_sandbox(minimal_sandbox_cfg("sb")).unwrap();
    let mut cfg = sleeping("c", "60");
    cfg.image_ref = "busy:latest".to_string();
    let cid = d.create_container(&sb, cfg).unwrap();
    d.start_container(&cid).unwrap();

    let err = d.remove_image("busy:latest").unwrap_err();
    assert!(matches!(err, BackendError::InUse(_)));

    d.stop_container(&cid, 0).unwrap();
    d.remove_image("busy:latest").unwrap();
}

#[test]
fn remove_image_in_use_by_created_container() {
    let mut d = Driver::new();
    d.pull_image("busy:latest").unwrap();
    let sb = d.run_sandbox(minimal_sandbox_cfg("sb")).unwrap();
    let mut cfg = minimal_container_cfg("c");
    cfg.image_ref = "busy:latest".to_string();
    d.create_container(&sb, cfg).unwrap();

    let err = d.remove_image("busy:latest").unwrap_err();
    assert!(matches!(err, BackendError::InUse(_)));
}

#[test]
fn image_fs_info() {
    let mut d = Driver::new();
    d.pull_image("img1:v1").unwrap();
    d.pull_image("img2:v2").unwrap();
    let info = d.image_fs_info().unwrap();
    assert_eq!(info.inodes_used, 2);
    assert!(info.used_bytes > 0);
    assert_eq!(info.used_bytes, 14);
    assert!(!info.mountpoint.is_empty());
    assert_eq!(info.mountpoint, "/state");
}

// ---- filters ----

#[test]
fn list_containers_filter_sandbox() {
    let mut d = Driver::new();
    let sb1 = d.run_sandbox(minimal_sandbox_cfg("sb1")).unwrap();
    let sb2 = d.run_sandbox(minimal_sandbox_cfg("sb2")).unwrap();
    d.create_container(&sb1, minimal_container_cfg("c1")).unwrap();
    d.create_container(&sb2, minimal_container_cfg("c2")).unwrap();

    let filter = ContainerFilter { sandbox: Some(sb1.clone()), ..Default::default() };
    let result = d.backend.list_containers(&filter).unwrap();
    assert_eq!(result.len(), 1);
    assert_eq!(result[0].sandbox, sb1);
}

#[test]
fn list_containers_filter_state() {
    let mut d = Driver::new();
    let sb = d.run_sandbox(minimal_sandbox_cfg("sb")).unwrap();
    d.create_container(&sb, minimal_container_cfg("c1")).unwrap();
    let cid2 = d.create_container(&sb, sleeping("c2", "60")).unwrap();
    d.start_container(&cid2).unwrap();

    let filter = ContainerFilter { state: Some(ContainerState::Running), ..Default::default() };
    let running = d.backend.list_containers(&filter).unwrap();
    assert_eq!(running.len(), 1);
    assert_eq!(running[0].id, cid2);

    d.stop_container(&cid2, 0).unwrap();
    d.remove_container(&cid2).unwrap();
}

#[test]
fn list_containers_filter_label() {
    let mut d = Driver::new();
    let sb = d.run_sandbox(minimal_sandbox_cfg("sb")).unwrap();
    let mut cfg = minimal_container_cfg("labeled");
    cfg.labels.insert("tier".to_string(), "backend".to_string());
    let cid = d.create_container(&sb, cfg).unwrap();
    d.create_container(&sb, minimal_container_cfg("unlabeled")).unwrap();

    let mut sel = TextMap::new();
    sel.insert("tier".to_string(), "backend".to_string());
    let filter = ContainerFilter { label_selector: sel, ..Default::default() };
    let result = d.backend.list_containers(&filter).unwrap();
    assert_eq!(result.len(), 1);
    assert_eq!(result[0].id, cid);
}

// ---- opened again ----

#[test]
fn reopen_rebuilds_sandbox_state() {
    let mut d = Driver::new();
    let id = d.run_sandbox(minimal_sandbox_cfg("sb")).unwrap();
    d.stop_sandbox(&id).unwrap();
    let d2 = d.reopen();
    let status = d2.backend.sandbox_status(&id).unwrap();
    assert_eq!(status.state, SandboxState::NotReady);
}

#[test]
fn reopen_rebuilds_container_state() {
    let mut d = Driver::new();
    let sb_id = d.run_sandbox(minimal_sandbox_cfg("sb")).unwrap();
    let cid = d.create_container(&sb_id, minimal_container_cfg("c")).unwrap();
    let d2 = d.reopen();
    let status = d2.backend.container_status(&cid).unwrap();
    assert_eq!(status.state, ContainerState::Created);
    assert_eq!(status.sandbox, sb_id);
}

#[test]
fn reopen_rebuilds_image_state() {
    let mut d = Driver::new();
    d.pull_image("redis:7").unwrap();
    let d2 = d.reopen();
    let images = d2.backend.list_images().unwrap();
    assert_eq!(images.len(), 1);
    assert_eq!(images[0].ref_name, "redis:7");
}

#[test]
fn reopen_running_container_pid_alive_stays_running() {
    let mut d = Driver::new();
    let sb = d.run_sandbox(minimal_sandbox_cfg("sb")).unwrap();
    let cid = d.create_container(&sb, sleeping("c", "300")).unwrap();
    d.start_container(&cid).unwrap();
    let mut d2 = d.reopen();
    let status = d2.backend.container_status(&cid).unwrap();
    assert_eq!(status.state, ContainerState::Running);
    d2.stop_container(&cid, 0).unwrap();
    d2.remove_container(&cid).unwrap();
}

// ---- stats ----

#[test]
fn stats_not_found() {
    let mut d = Driver::new();
    let err = d.container_stats(&ContainerId("ghost".to_string())).unwrap_err();
    assert!(matches!(err, BackendError::NotFound(_)));
}

#[test]
fn stats_not_running_returns_zeros() {
    let mut d = Driver::new();
    let sb = d.run_sandbox(minimal_sandbox_cfg("sb")).unwrap();
    let cid = d.create_container(&sb, minimal_container_cfg("c")).unwrap();
    let stats = d.container_stats(&cid).unwrap();
    assert_eq!(stats.cpu_usage_core_nanos, 0);
    assert_eq!(stats.memory_working_set_bytes, 0);
    assert!(stats.timestamp_nanos > 0);
}

#[test]
fn pull_image_deterministic_hash() {
    let mut backend1 = Driver::new();
    let mut backend2 = Driver::new();
    let p1 = backend1.pull_image("same:ref").unwrap();
    let p2 = backend2.pull_image("same:ref").unwrap();
    assert_eq!(p1.root_hex, p2.root_hex);
    assert_eq!(p1.total_size, p2.total_size);
}

// ---- logs ----

#[test]
fn log_file_created_and_format_correct() {
    let mut d = Driver::new();
    let mut sb_cfg = minimal_sandbox_cfg("sb");
    sb_cfg.log_directory = "/state/logs".to_string();
    let sb = d.run_sandbox(sb_cfg).unwrap();

    let mut cfg = minimal_container_cfg("log-test");
    cfg.command = vec!["/bin/sh".to_string()];
    cfg.args = vec!["-c".to_string(), "echo hello-log".to_string()];
    cfg.log_path = "test.log".to_string();
    cfg.tty = false;
    cfg.stdin = false;

    let cid = d.create_container(&sb, cfg).unwrap();

    d.start_container(&cid).unwrap();
    assert_eq!(d.host.logs[0].0, "/state/logs/test.log");

    let contents = String::from_utf8(d.host.logs[0].1.clone()).unwrap();
    let mut found = false;
    for line in contents.lines() {
        let parts: Vec<&str> = line.splitn(4, ' ').collect();
        if parts.len() >= 4
            && parts[1] == "stdout"
            && parts[2] == "F"
            && parts[3].contains("hello-log")
        {
            found = true;
        }
    }
    assert!(found, "CRI-format log line not found; contents: {contents:?}");
    assert_eq!(contents, "1970-01-01T00:00:01.000000002Z stdout F hello-log\n");

    d.stop_container(&cid, 0).unwrap();
    d.remove_container(&cid).unwrap();
    d.remove_sandbox(&sb).unwrap();
}

#[test]
fn log_file_created_even_if_no_output() {
    let mut d = Driver::new();
    let mut sb_cfg = minimal_sandbox_cfg("sb");
    sb_cfg.log_directory = "/state/logs2".to_string();
    let sb = d.run_sandbox(sb_cfg).unwrap();

    let mut cfg = sleeping("silent", "60");
    cfg.log_path = "silent.log".to_string();

    let cid = d.create_container(&sb, cfg).unwrap();
    d.start_container(&cid).unwrap();
    assert_eq!(d.host.logs, vec![(text("/state/logs2/silent.log"), vec![])]);

    d.stop_container(&cid, 0).unwrap();
    d.remove_container(&cid).unwrap();
    d.remove_sandbox(&sb).unwrap();
}

// ---- sessions ----

#[test]
fn open_exec_echo_and_exit_code_zero() {
    let mut d = Driver::new();
    let sb = d.run_sandbox(minimal_sandbox_cfg("sb")).unwrap();
    let cid = d.create_container(&sb, sleeping("c", "60")).unwrap();
    d.start_container(&cid).unwrap();

    let cmd = vec!["/bin/echo".to_string(), "exec-hello".to_string()];
    let (shape, out, report) = d.open_exec(&cid, &cmd, false, false).unwrap();
    assert!(shape.stdout && shape.stderr && !shape.stdin && !shape.pty_master);
    let exit_code = wait(&report).unwrap();

    assert_eq!(exit_code, 0);
    assert!(out.starts_with(b"exec-hello"), "stdout: {:?}", String::from_utf8_lossy(&out));

    d.stop_container(&cid, 0).unwrap();
    d.remove_container(&cid).unwrap();
    d.remove_sandbox(&sb).unwrap();
}

#[test]
fn open_exec_exit_code_7() {
    let mut d = Driver::new();
    let sb = d.run_sandbox(minimal_sandbox_cfg("sb")).unwrap();
    let cid = d.create_container(&sb, sleeping("c", "60")).unwrap();
    d.start_container(&cid).unwrap();

    let cmd = vec!["/bin/sh".to_string(), "-c".to_string(), "exit 7".to_string()];
    let (_, _, report) = d.open_exec(&cid, &cmd, false, false).unwrap();
    let exit_code = wait(&report).unwrap();
    assert_eq!(exit_code, 7);

    d.stop_container(&cid, 0).unwrap();
    d.remove_container(&cid).unwrap();
    d.remove_sandbox(&sb).unwrap();
}

#[test]
fn open_exec_non_running_fails_precondition() {
    let mut d = Driver::new();
    let sb = d.run_sandbox(minimal_sandbox_cfg("sb")).unwrap();
    let cid = d.create_container(&sb, minimal_container_cfg("c")).unwrap();
    let cmd = vec!["/bin/echo".to_string(), "hi".to_string()];
    let err = match d.open_exec(&cid, &cmd, false, false) {
        Err(e) => e,
        Ok(_) => panic!("expected Err(FailedPrecondition), got Ok"),
    };
    assert!(
        matches!(err, BackendError::FailedPrecondition(_)),
        "expected FailedPrecondition, got: {err:?}"
    );
}

#[test]
fn open_exec_tty_writes_line() {
    let mut d = Driver::new();
    let sb = d.run_sandbox(minimal_sandbox_cfg("sb")).unwrap();
    let cid = d.create_container(&sb, sleeping("c", "60")).unwrap();
    d.start_container(&cid).unwrap();

    let cmd = vec!["/bin/echo".to_string(), "pty-hello".to_string()];
    let (shape, out, _) = d.open_exec(&cid, &cmd, true, false).unwrap();
    assert!(shape.pty_master, "pty_master must be Some for tty=true");
    assert!(shape.stdout, "stdout must be Some for tty=true");
    assert!(!shape.stdin && !shape.stderr);

    let s = String::from_utf8_lossy(&out);
    assert!(s.contains("pty-hello"), "expected 'pty-hello' in pty output, got: {s:?}");

    d.stop_container(&cid, 0).unwrap();
    d.remove_container(&cid).unwrap();
    d.remove_sandbox(&sb).unwrap();
}

#[test]
fn open_attach_non_running_fails_precondition() {
    let mut d = Driver::new();
    let sb = d.run_sandbox(minimal_sandbox_cfg("sb")).unwrap();
    let cid = d.create_container(&sb, minimal_container_cfg("c")).unwrap();
    let err = match d.backend.open_attach(&cid) {
        Err(e) => e,
        Ok(_) => panic!("expected Err(FailedPrecondition), got Ok"),
    };
    assert!(matches!(err, BackendError::FailedPrecondition(_)));
}

#[test]
fn open_attach_unavailable_after_restart() {
    let mut d = Driver::new();
    let sb = d.run_sandbox(minimal_sandbox_cfg("sb")).unwrap();
    let cid = d.create_container(&sb, sleeping("c", "300")).unwrap();
    d.start_container(&cid).unwrap();
    let mut d2 = d.reopen();
    let status = d2.backend.container_status(&cid).unwrap();
    assert_eq!(status.state, ContainerState::Running);
    let err = match d2.backend.open_attach(&cid) {
        Err(e) => e,
        Ok(_) => panic!("expected Err(Internal), got Ok"),
    };
    assert!(
        matches!(&err, BackendError::Internal(m) if m.contains("attach unavailable after restart")),
        "expected Internal(attach unavailable after restart), got: {err:?}"
    );
    d2.stop_container(&cid, 0).unwrap();
    d2.remove_container(&cid).unwrap();
}

// ---- beyond ----

#[test]
fn names_tell_the_moment_and_the_count() {
    let mut d = Driver::new();
    let sb = d.run_sandbox(minimal_sandbox_cfg("sb")).unwrap();
    assert_eq!(sb.0, "sb-1001-0");
    let c = d.create_container(&sb, minimal_container_cfg("c")).unwrap();
    assert_eq!(c.0, "ct-1003-1");
}

#[test]
fn refusals_say_why() {
    let mut d = Driver::new();
    let ghost = ContainerId(text("ghost"));
    assert_eq!(
        d.create_container(&SandboxId(text("ghost")), minimal_container_cfg("c")),
        Err(BackendError::NotFound(text("sandbox ghost")))
    );
    assert_eq!(
        d.start_container(&ghost),
        Err(BackendError::NotFound(text("container ghost")))
    );
    let sb = d.run_sandbox(minimal_sandbox_cfg("sb")).unwrap();
    let c = d.create_container(&sb, sleeping("c", "60")).unwrap();
    let cmd = vec![text("/bin/echo")];
    assert_eq!(
        d.exec_sync(&c, &cmd, 0),
        Err(BackendError::FailedPrecondition(text(
            "container ct-1005-2 is not Running (state=Created); exec_sync requires Running"
        )))
    );
    assert_eq!(
        d.backend.open_attach(&c),
        Err(BackendError::FailedPrecondition(text(
            "container ct-1005-2 is not Running (state=Created); open_attach requires Running"
        )))
    );
    d.start_container(&c).unwrap();
    assert_eq!(
        d.start_container(&c),
        Err(BackendError::FailedPrecondition(text(
            "container ct-1005-2 is in state Running, must be Created to start"
        )))
    );
    assert_eq!(
        d.remove_container(&c),
        Err(BackendError::FailedPrecondition(text(
            "container ct-1005-2 is Running; stop it first"
        )))
    );
    assert_eq!(
        d.exec_sync(&c, &vec![], 0),
        Err(BackendError::InvalidArgument(text("exec_sync: empty command")))
    );
    assert_eq!(
        d.open_exec(&c, &vec![], true, true).unwrap_err(),
        BackendError::InvalidArgument(text("open_exec: empty command"))
    );
    d.stop_sandbox(&sb).unwrap();
    assert_eq!(
        d.create_container(&sb, minimal_container_cfg("c")),
        Err(BackendError::FailedPrecondition(text("sandbox sb-1003-1 is not Ready")))
    );
    d.pull_image("busybox:latest").unwrap();
    assert_eq!(
        d.remove_image("busybox:latest"),
        Err(BackendError::InUse(text(
            "image busybox:latest referenced by container ct-1005-2"
        )))
    );
    assert_eq!(
        d.pull_image("a b").unwrap_err(),
        BackendError::InvalidArgument(text("image_ref \"a b\" is empty or contains whitespace"))
    );
}

#[test]
fn digest_of_a_reference_is_its_blake3() {
    let mut d = Driver::new();
    let pulled = d.pull_image("nginx:1.25").unwrap();
    let hex = blake3::hash(b"nginx:1.25").to_hex().to_string();
    assert_eq!(pulled.root_hex, hex);
    assert_eq!(pulled.total_size, 10);
    let listed = d.backend.list_images().unwrap();
    assert_eq!(listed[0].id, format!("sha-{}", &hex[..16]));
    assert_eq!(listed[0].size, 10);
}

#[test]
fn pulling_twice_keeps_one_image() {
    let mut d = Driver::new();
    let first = d.pull_image("redis:7").unwrap();
    assert_eq!(d.pull_image("redis:7").unwrap(), first);
    assert_eq!(d.backend.list_images().unwrap().len(), 1);
    d.remove_image("redis:7").unwrap();
    assert!(d.backend.image_status("redis:7").unwrap().is_none());
    assert!(d.host.images.is_empty());
}

#[test]
fn size_counts_bytes_not_characters() {
    let mut d = Driver::new();
    assert_eq!(d.pull_image("b\u{fc}cher").unwrap().total_size, 7);
}

#[test]
fn stop_asks_first_and_then_ends() {
    let mut d = Driver::new();
    let sb = d.run_sandbox(minimal_sandbox_cfg("sb")).unwrap();
    let c = d.create_container(&sb, sleeping("c", "60")).unwrap();
    d.start_container(&c).unwrap();
    d.host.stubborn.push(100);
    d.stop_container(&c, 0).unwrap();
    assert_eq!(d.host.signals, vec![(100, 15), (100, 9)]);
    let s = d.backend.container_status(&c).unwrap();
    assert_eq!(s.state, ContainerState::Exited);
    assert_eq!(s.exit_code, 143);
    assert_eq!(s.reason, "stopped");

    let c2 = d.create_container(&sb, sleeping("c2", "60")).unwrap();
    d.start_container(&c2).unwrap();
    d.stop_container(&c2, 0).unwrap();
    assert_eq!(d.host.signals[2..], [(101, 15)]);
}

#[test]
fn stop_that_cannot_be_written_fails_and_still_stops() {
    let mut d = Driver::new();
    let sb = d.run_sandbox(minimal_sandbox_cfg("sb")).unwrap();
    let c = d.create_container(&sb, sleeping("c", "60")).unwrap();
    d.start_container(&c).unwrap();
    d.host.write_fault = Some("disk full");
    assert_eq!(d.stop_container(&c, 0), Err(BackendError::Io(text("disk full"))));
    let s = d.backend.container_status(&c).unwrap();
    assert_eq!(s.state, ContainerState::Exited);
}

#[test]
fn remove_sandbox_leaves_others_alone() {
    let mut d = Driver::new();
    let sb1 = d.run_sandbox(minimal_sandbox_cfg("a")).unwrap();
    let sb2 = d.run_sandbox(minimal_sandbox_cfg("b")).unwrap();
    let c1 = d.create_container(&sb1, sleeping("c1", "60")).unwrap();
    let c2 = d.create_container(&sb1, minimal_container_cfg("c2")).unwrap();
    let c3 = d.create_container(&sb2, sleeping("c3", "60")).unwrap();
    d.start_container(&c1).unwrap();
    d.start_container(&c3).unwrap();
    d.remove_sandbox(&sb1).unwrap();
    assert!(d.backend.container_status(&c1).is_err());
    assert!(d.backend.container_status(&c2).is_err());
    assert_eq!(d.backend.container_status(&c3).unwrap().state, ContainerState::Running);
    assert_eq!(d.host.sandboxes.len(), 1);
    assert_eq!(d.host.containers.len(), 1);
    assert_eq!(d.host.alive, vec![101]);
}

#[test]
fn remove_sandbox_fails_where_a_file_cannot_be_written() {
    let mut d = Driver::new();
    let sb = d.run_sandbox(minimal_sandbox_cfg("a")).unwrap();
    d.host.write_fault = Some("disk full");
    assert_eq!(d.remove_sandbox(&sb), Err(BackendError::Io(text("disk full"))));
    assert_eq!(d.backend.sandbox_status(&sb).unwrap().state, SandboxState::NotReady);
}

#[test]
fn start_reports_each_fault() {
    let mut d = Driver::new();
    let mut cfg = minimal_sandbox_cfg("sb");
    cfg.log_directory = text("/logs");
    let sb = d.run_sandbox(cfg).unwrap();

    let mut empty = minimal_container_cfg("empty");
    empty.command = vec![];
    empty.args = vec![];
    empty.log_path = text("empty.log");
    let c = d.create_container(&sb, empty).unwrap();
    d.host.log_fault = Some("no such directory");
    assert_eq!(d.start_container(&c), Err(BackendError::Io(text("no such directory"))));
    d.host.log_fault = None;
    assert_eq!(
        d.start_container(&c),
        Err(BackendError::InvalidArgument(text("empty command")))
    );
    assert_eq!(d.host.logs.len(), 1);

    let mut tty = sleeping("tty", "60");
    tty.tty = true;
    let t = d.create_container(&sb, tty).unwrap();
    d.host.terminal_fault = true;
    assert_eq!(
        d.start_container(&t),
        Err(BackendError::Internal(text("openpty: ENXIO")))
    );
    assert_eq!(d.backend.container_status(&t).unwrap().state, ContainerState::Created);

    let p = d.create_container(&sb, sleeping("p", "60")).unwrap();
    d.host.pipe_fault = Some("EMFILE");
    assert_eq!(d.start_container(&p), Err(BackendError::Io(text("EMFILE"))));

    let s = d.create_container(&sb, sleeping("s", "60")).unwrap();
    d.host.spawn_fault = Some("no such program");
    let name = s.0.clone();
    assert_eq!(
        d.start_container(&s),
        Err(BackendError::Internal(format!("spawn container {name}: no such program")))
    );
    let status = d.backend.container_status(&s).unwrap();
    assert_eq!(status.state, ContainerState::Exited);
    assert_eq!(status.exit_code, -1);
    assert_eq!(status.reason, "spawn-failed");
    assert_eq!(status.message, "no such program");
}

#[test]
fn terminal_container_can_be_attached_to() {
    let mut d = Driver::new();
    let sb = d.run_sandbox(minimal_sandbox_cfg("sb")).unwrap();
    let mut cfg = sleeping("tty", "60");
    cfg.tty = true;
    let t = d.create_container(&sb, cfg).unwrap();
    d.start_container(&t).unwrap();
    let shape = SessionShape { stdin: false, stdout: true, stderr: false, pty_master: true };
    assert_eq!(d.backend.open_attach(&t).unwrap(), shape);

    let p = d.create_container(&sb, sleeping("p", "60")).unwrap();
    d.start_container(&p).unwrap();
    let shape = SessionShape { stdin: false, stdout: true, stderr: true, pty_master: false };
    assert_eq!(d.backend.open_attach(&p).unwrap(), shape);

    let mut cfg = sleeping("in", "60");
    cfg.stdin = true;
    let i = d.create_container(&sb, cfg).unwrap();
    d.start_container(&i).unwrap();
    let shape = SessionShape { stdin: true, stdout: true, stderr: true, pty_master: false };
    assert_eq!(d.backend.open_attach(&i).unwrap(), shape);
    assert_eq!(d.backend.open_attach(&i).unwrap(), shape);
}

#[test]
fn filtered_list_is_the_filtered_full_list() {
    let mut d = Driver::new();
    let sb = d.run_sandbox(minimal_sandbox_cfg("sb")).unwrap();
    let other = d.run_sandbox(minimal_sandbox_cfg("other")).unwrap();
    for name in ["a", "b", "c"] {
        d.create_container(&sb, minimal_container_cfg(name)).unwrap();
        d.create_container(&other, minimal_container_cfg(name)).unwrap();
    }
    let all = d.backend.list_containers(&ContainerFilter::default()).unwrap();
    assert_eq!(all.len(), 6);
    assert!(all.windows(2).all(|w| w[0].id.0 < w[1].id.0));
    let filter = ContainerFilter { sandbox: Some(sb.clone()), ..Default::default() };
    let mine = d.backend.list_containers(&filter).unwrap();
    let expected: Vec<_> = all.into_iter().filter(|s| s.sandbox == sb).collect();
    assert_eq!(mine, expected);
}

#[test]
fn image_that_was_pulled_twice_is_listed_once() {
    let mut d = Driver::new();
    let a = d.pull_image("redis:7").unwrap();
    let b = d.pull_image("redis:7").unwrap();
    assert_eq!(a, b);
    d.pull_image("nginx:1").unwrap();
    let listed = d.backend.list_images().unwrap();
    assert_eq!(listed.iter().filter(|i| i.ref_name == "redis:7").count(), 1);
    let status = d.backend.image_status("redis:7").unwrap().unwrap();
    assert_eq!(status.id, format!("sha-{}", &a.root_hex[..16]));
    assert_eq!(status.size, 7);
}

#[test]
fn process_that_ends_by_itself_is_noted() {
    let mut d = Driver::new();
    let sb = d.run_sandbox(minimal_sandbox_cfg("sb")).unwrap();
    let mut ids = vec![];
    for name in ["a", "b", "c"] {
        let c = d.create_container(&sb, sleeping(name, "60")).unwrap();
        d.start_container(&c).unwrap();
        ids.push(c);
    }
    let reports = [
        ExitReport::Ended { signal: None, code: Some(3) },
        ExitReport::Ended { signal: Some(9), code: None },
        ExitReport::WaitFailed(text("ECHILD")),
    ];
    let expected = [(3, ""), (137, "killed-by-signal-9"), (-1, "wait-error: ECHILD")];
    for ((id, report), (code, reason)) in ids.iter().zip(&reports).zip(expected) {
        let rec = d.backend.container_exited(id, report, 77).unwrap();
        assert_eq!(rec.exit_code, code);
        assert_eq!(rec.reason, reason);
        assert_eq!(rec.finished_at_nanos, 77);
        assert_eq!(rec.state, ContainerState::Exited);
        assert!(d.backend.container_exited(id, report, 78).is_none());
        assert!(d.backend.open_attach(id).is_err());
    }
}

#[test]
fn crash_between_start_and_note_is_found_out() {
    let mut d = Driver::new();
    let sb = d.run_sandbox(minimal_sandbox_cfg("sb")).unwrap();
    let c = d.create_container(&sb, sleeping("c", "60")).unwrap();
    // The process is started, and then the backend is gone.
    let (mut m, action) = StartContainer::begin(&d.backend, &c).unwrap();
    assert!(matches!(action, StartAction::ReadClock));
    let action = m.next(&mut d.backend, StartEvent::Clock(5));
    let rec = match action {
        StartAction::Write(rec) => rec,
        _ => unreachable!(),
    };
    assert_eq!(rec.reason, "starting");
    d.host.write_container(&rec).unwrap();
    let action = m.next(&mut d.backend, StartEvent::Written(Ok(())));
    assert!(matches!(action, StartAction::Spawn(_)));

    let d2 = d.reopen();
    let s = d2.backend.container_status(&c).unwrap();
    assert_eq!(s.state, ContainerState::Exited);
    assert_eq!(s.exit_code, -1);
    assert_eq!(s.reason, "lost-start-window");
    assert_eq!(d2.host.containers[0].state, ContainerState::Exited);
}

#[test]
fn process_that_ended_unseen_is_found_out() {
    let mut d = Driver::new();
    let sb = d.run_sandbox(minimal_sandbox_cfg("sb")).unwrap();
    let c = d.create_container(&sb, sleeping("c", "60")).unwrap();
    d.start_container(&c).unwrap();
    d.host.alive.clear();
    let d2 = d.reopen();
    let s = d2.backend.container_status(&c).unwrap();
    assert_eq!(s.state, ContainerState::Exited);
    assert_eq!(s.exit_code, -1);
    assert_eq!(s.reason, "lost-exit-reaped-elsewhere");
}

#[test]
fn new_sandbox_is_not_kept_where_it_cannot_be_written() {
    let mut d = Driver::new();
    d.host.write_fault = Some("disk full");
    assert_eq!(
        d.run_sandbox(minimal_sandbox_cfg("sb")),
        Err(BackendError::Io(text("disk full")))
    );
    assert!(d.backend.list_sandboxes(&SandboxFilter::default()).unwrap().is_empty());
    assert_eq!(d.pull_image("x"), Err(BackendError::Io(text("disk full"))));
    assert!(d.backend.list_images().unwrap().is_empty());
    assert_eq!(
        write_result(Err(WriteFault::Serialize(text("bad key")))),
        Err(BackendError::Internal(text("serialize: bad key")))
    );
}

#[test]
fn running_container_reports_what_was_seen() {
    let mut d = Driver::new();
    let sb = d.run_sandbox(minimal_sandbox_cfg("sb")).unwrap();
    let c = d.create_container(&sb, sleeping("c", "60")).unwrap();
    d.start_container(&c).unwrap();
    let s = d.container_stats(&c).unwrap();
    assert_eq!((s.cpu_usage_core_nanos, s.memory_working_set_bytes), (7, 8));

    let ids = d.backend.container_ids(&ContainerFilter::default());
    assert_eq!(ids, vec![c]);
    let samples = vec![Sample { now_nanos: 4, cpu_nanos: 5, memory_bytes: 6 }];
    let all = d.backend.list_container_stats(&ids, &samples).unwrap();
    assert_eq!(all.len(), 1);
    assert_eq!(all[0].timestamp_nanos, 4);
    let gone = vec![ContainerId(text("gone"))];
    assert_eq!(
        d.backend.list_container_stats(&gone, &samples).unwrap_err(),
        BackendError::NotFound(text("container gone"))
    );
}

#[test]
fn process_files_are_read() {
    let stat = "1 (x) S 0 0 0 0 0 0 0 0 0 0 150 50 0 0";
    let status = "Name:\tx\nVmRSS:\t   2048 kB\nVmRSS:\t1 kB\n";
    assert_eq!(read_proc_stats(Some(stat), Some(status), 100), (2_000_000_000, 2_097_152));
    assert_eq!(proc_stats(Some(stat), Some(status), 100), Some((2_000_000_000, 2_097_152)));
    assert_eq!(read_proc_stats(Some("1 2 3"), Some("Name: x"), 100), (0, 0));
    assert_eq!(read_proc_stats(None, None, 0), (0, 0));
    assert_eq!(read_proc_stats(Some(stat), None, 0), (0, 0));
    let huge = "VmRSS: 18446744073709551615 kB";
    assert_eq!(proc_stats(None, Some(huge), 100), None);
}

#[test]
fn waiting_can_fail() {
    assert_eq!(
        wait(&ExitReport::WaitFailed(text("ECHILD"))),
        Err(BackendError::Internal(text("wait: ECHILD")))
    );
    assert_eq!(wait(&ExitReport::Ended { signal: Some(15), code: None }), Ok(143));
    assert_eq!(wait(&ExitReport::Ended { signal: None, code: None }), Ok(0));
}

#[test]
fn command_runs_as_its_container_says() {
    let mut d = Driver::new();
    let sb = d.run_sandbox(minimal_sandbox_cfg("sb")).unwrap();
    let mut cfg = sleeping("c", "60");
    cfg.working_dir = text("/srv");
    cfg.envs = vec![(text("A"), text("1"))];
    let c = d.create_container(&sb, cfg).unwrap();
    d.start_container(&c).unwrap();
    let cmd = vec![text("/bin/echo"), text("x"), text("y")];
    let (_, action) = ExecSync::begin(&d.backend, &c, &cmd, 0).unwrap();
    match action {
        ExecAction::Spawn(spec) => {
            assert_eq!(spec.program, "/bin/echo");
            assert_eq!(spec.args, vec![text("x"), text("y")]);
            assert_eq!(spec.cwd, Some(text("/srv")));
            assert_eq!(spec.envs, vec![(text("A"), text("1"))]);
            assert!(!spec.new_session);
        }
        _ => unreachable!(),
    }
}

#[test]
fn exec_faults_are_reported() {
    let mut d = Driver::new();
    let sb = d.run_sandbox(minimal_sandbox_cfg("sb")).unwrap();
    let c = d.create_container(&sb, sleeping("c", "60")).unwrap();
    d.start_container(&c).unwrap();
    let cmd = vec![text("/bin/echo")];
    let fault = |r: ExecAction| match r {
        ExecAction::Done(Err(e)) => e,
        _ => unreachable!(),
    };
    let (mut m, _) = ExecSync::begin(&d.backend, &c, &cmd, 0).unwrap();
    assert_eq!(
        fault(m.next(ExecEvent::Spawned(Err(text("ENOENT"))))),
        BackendError::Internal(text("exec_sync spawn: ENOENT"))
    );
    let (mut m, _) = ExecSync::begin(&d.backend, &c, &cmd, 0).unwrap();
    m.next(ExecEvent::Spawned(Ok(())));
    assert_eq!(
        fault(m.next(ExecEvent::Waited(Err(text("ECHILD"))))),
        BackendError::Internal(text("exec_sync wait: ECHILD"))
    );
    let (mut m, _) = ExecSync::begin(&d.backend, &c, &cmd, 3).unwrap();
    m.next(ExecEvent::Spawned(Ok(())));
    assert_eq!(
        fault(m.next(ExecEvent::Polled(Err(text("ECHILD"))))),
        BackendError::Internal(text("try_wait: ECHILD"))
    );
    let (mut m, _) = OpenExec::begin(&d.backend, &c, &cmd, true, false).unwrap();
    match m.next(OpenEvent::TerminalOpened(Err(TerminalFault::Dup(text("EMFILE"))))) {
        OpenAction::Done(Err(e)) => assert_eq!(e, BackendError::Io(text("EMFILE"))),
        _ => unreachable!(),
    }
    let (mut m, _) = OpenExec::begin(&d.backend, &c, &cmd, false, true).unwrap();
    match m.next(OpenEvent::Spawned(Err(text("ENOENT")))) {
        OpenAction::Done(Err(e)) => {
            assert_eq!(e, BackendError::Internal(text("open_exec spawn: ENOENT")))
        }
        _ => unreachable!(),
    }
}

#[test]
fn process_that_ends_while_it_is_stopped_keeps_its_exit() {
    let mut d = Driver::new();
    let sb = d.run_sandbox(minimal_sandbox_cfg("sb")).unwrap();
    let c = d.create_container(&sb, sleeping("c", "60")).unwrap();
    d.start_container(&c).unwrap();
    let (mut m, action) = StopContainer::begin(&d.backend, &c);
    assert!(matches!(action, StopAction::Signal { pid: 100, signal: 15 }));
    let action = m.next(&mut d.backend, StopEvent::Signalled);
    assert!(matches!(action, StopAction::Settle { pid: 100, millis: 100 }));
    let report = ExitReport::Ended { signal: Some(15), code: None };
    assert!(d.backend.container_exited(&c, &report, 50).is_some());
    let action = m.next(&mut d.backend, StopEvent::Settled { alive: false });
    assert!(matches!(action, StopAction::ReadClock));
    let action = m.next(&mut d.backend, StopEvent::Clock(60));
    assert!(matches!(action, StopAction::Done(Ok(()))));
    let s = d.backend.container_status(&c).unwrap();
    assert_eq!(s.reason, "killed-by-signal-15");
    assert_eq!(s.finished_at_nanos, 50);
}

#[test]
fn filter_that_says_nothing_picks_all() {
    let mut d = Driver::new();
    let a = d.run_sandbox(minimal_sandbox_cfg("a")).unwrap();
    let b = d.run_sandbox(minimal_sandbox_cfg("b")).unwrap();
    let all = d.backend.list_sandboxes(&SandboxFilter::default()).unwrap();
    assert_eq!(all.len(), 2);
    assert!(a != b);
    let one = SandboxFilter { id: Some(b.clone()), ..Default::default() };
    let found = d.backend.list_sandboxes(&one).unwrap();
    assert_eq!(found.len(), 1);
    assert_eq!(found[0].id, b);
    let c = d.create_container(&a, minimal_container_cfg("c")).unwrap();
    let all = d.backend.list_containers(&ContainerFilter::default()).unwrap();
    assert_eq!(all.len(), 1);
    assert_eq!(all[0].id, c);
}

#[test]
fn files_say_what_the_backend_holds() {
    let mut d = Driver::new();
    let sb = d.run_sandbox(minimal_sandbox_cfg("sb")).unwrap();
    let c = d.create_container(&sb, sleeping("c", "60")).unwrap();
    d.pull_image("redis:7").unwrap();
    d.start_container(&c).unwrap();
    let before = d.backend.list_containers(&ContainerFilter::default()).unwrap();
    let images = d.backend.list_images().unwrap();
    let d2 = d.reopen();
    assert_eq!(d2.backend.list_containers(&ContainerFilter::default()).unwrap(), before);
    assert_eq!(d2.backend.list_images().unwrap(), images);
}

#[test]
fn kill_in_the_middle_of_a_stop_leaves_one_file_behind() {
    let mut d = Driver::new();
    let sb = d.run_sandbox(minimal_sandbox_cfg("sb")).unwrap();
    let a = d.create_container(&sb, sleeping("a", "60")).unwrap();
    let b = d.create_container(&sb, sleeping("b", "60")).unwrap();
    d.start_container(&a).unwrap();
    d.start_container(&b).unwrap();
    let (mut m, _) = StopContainer::begin(&d.backend, &a);
    m.next(&mut d.backend, StopEvent::Signalled);
    m.next(&mut d.backend, StopEvent::Settled { alive: false });
    let action = m.next(&mut d.backend, StopEvent::Clock(60));
    assert!(matches!(action, StopAction::Write(_)));
    // Another process ends while the file is owed.
    let report = ExitReport::Ended { signal: None, code: Some(3) };
    let rec = d.backend.container_exited(&b, &report, 70).unwrap();
    d.host.write_container(&rec).unwrap();
    d.host.alive.clear();
    let ended = d.backend.container_status(&b).unwrap();
    let d2 = d.reopen();
    assert_eq!(d2.backend.container_status(&b).unwrap(), ended);
    let s = d2.backend.container_status(&a).unwrap();
    assert_eq!(s.state, ContainerState::Exited);
    assert_eq!(s.reason, "lost-exit-reaped-elsewhere");
    assert_eq!(d2.backend.list_sandboxes(&SandboxFilter::default()).unwrap().len(), 1);
}

#[test]
fn opening_that_was_cut_short_is_made_good() {
    let mut d = Driver::new();
    let sb = d.run_sandbox(minimal_sandbox_cfg("sb")).unwrap();
    let a = d.create_container(&sb, sleeping("a", "60")).unwrap();
    let b = d.create_container(&sb, sleeping("b", "60")).unwrap();
    d.start_container(&a).unwrap();
    d.start_container(&b).unwrap();
    let found: Vec<_> = d
        .host
        .containers
        .iter()
        .map(|rec| FoundContainer { rec: rec.clone(), alive: false, now_nanos: 7 })
        .collect();
    let (_, rewrites) =
        FakeBackend::open(text("/state"), &d.host.sandboxes, &found, &d.host.images);
    assert_eq!(rewrites.len(), 2);
    d.host.write_container(&rewrites[0]).unwrap();
    d.host.alive.clear();
    let first = rewrites[0].id.clone();
    let d2 = d.reopen();
    for id in [&a, &b] {
        let s = d2.backend.container_status(id).unwrap();
        assert_eq!(s.reason, "lost-exit-reaped-elsewhere");
        assert_eq!(s.finished_at_nanos == 7, *id == first);
    }
}
