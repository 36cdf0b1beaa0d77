//! Starting a container.

use crate::fake::container::no_container_error;
use crate::fake::disk::{write_error, DiskView, WriteFault};
use crate::fake::record::{state_name, ContainerRecord, ContainerRecordView};
use crate::fake::spawn::{command_line, spawn_spec, SpawnSpec, SpawnStdio, SpawnView};
use crate::fake::{BackendView, ContainerIo, FakeBackend};
use crate::log::wants_log;
use crate::text::join3;
use crate::types::{
    BackendError, BackendErrorView, ContainerConfig, ContainerConfigView, ContainerId,
    ContainerState,
};
use vstd::pervasive::unreached;
use vstd::prelude::*;
use vstd::string::*;

verus! {

/// What is being waited for.
#[derive(Clone, Copy, Debug, PartialEq, Eq, Structural)]
pub enum StartPhase {
    /// That the log was opened.
    Logging,
    /// That a terminal was opened.
    Opening,
    /// The time of the start.
    Timing,
    /// That the intent to start was written.
    Intending,
    /// That the process was started.
    Spawning,
    /// That the ends of its pipes were taken.
    Wiring,
    /// The time of the failure.
    FailTiming,
    /// That the failure was written.
    FailWriting,
    /// That the process was noted in the record.
    Noting,
    /// That somebody waits for the process to end.
    Watching,
    /// Nothing more.
    Over,
}

/// Why a terminal could not be had.
#[derive(Debug)]
pub enum TerminalFault {
    /// None could be opened.
    Open(String),
    /// One of its sides could not be doubled.
    Dup(String),
}

/// What a terminal that could not be had is reported as.
pub open spec fn terminal_fault(f: TerminalFault) -> BackendErrorView {
    match f {
        TerminalFault::Open(e) => BackendErrorView::Internal("openpty: "@ + e@),
        TerminalFault::Dup(e) => BackendErrorView::Io(e@),
    }
}

/// What a terminal that could not be had is reported as.
pub fn terminal_error(f: TerminalFault) -> (r: BackendError)
    ensures
        r@ == terminal_fault(f),
{
    match f {
        TerminalFault::Open(e) => {
            let mut m = "openpty: ".to_owned();
            m.append(e.as_str());
            BackendError::Internal(m)
        },
        TerminalFault::Dup(e) => BackendError::Io(e),
    }
}

/// The ends of a process's pipes that could be taken.
#[derive(Clone, Copy, Debug, PartialEq, Eq, Structural)]
pub struct PipeEnds {
    pub stdout: bool,
    pub stderr: bool,
    pub stdin: bool,
}

/// A container being started.
#[derive(Debug)]
pub struct StartContainer {
    id: ContainerId,
    config: ContainerConfig,
    pid: u32,
    fault: String,
    phase: StartPhase,
}

/// Where a [`StartContainer`] stands.
#[verifier::ext_equal]
pub struct StartView {
    pub id: Seq<char>,
    /// The configuration that the container had when its start began.
    pub config: ContainerConfigView,
    /// Its process, once that was started.
    pub pid: u32,
    /// Why the process could not be started.
    pub fault: Seq<char>,
    pub phase: StartPhase,
}

impl View for StartContainer {
    type V = StartView;

    closed spec fn view(&self) -> StartView {
        StartView {
            id: self.id@,
            config: self.config@,
            pid: self.pid,
            fault: self.fault@,
            phase: self.phase,
        }
    }
}

/// What is to be done next.
#[derive(Debug)]
pub enum StartAction {
    /// Open the log for appending, and make it where there is none.
    OpenLog { directory: String, path: String },
    /// Open a terminal, and copy what comes out of it to the log.
    OpenTerminal,
    ReadClock,
    Write(ContainerRecord),
    Spawn(SpawnSpec),
    /// Take the ends of the process's pipes, and copy what comes out of them to the log.
    TakePipes,
    /// Wait for the process to end, beside everything else.
    Watch { pid: u32 },
    Done(Result<(), BackendError>),
}

/// What a [`StartAction`] asks for.
#[verifier::ext_equal]
pub enum StartActionView {
    OpenLog { directory: Seq<char>, path: Seq<char> },
    OpenTerminal,
    ReadClock,
    Write(ContainerRecordView),
    Spawn(SpawnView),
    TakePipes,
    Watch { pid: u32 },
    Done(Result<(), BackendErrorView>),
}

impl View for StartAction {
    type V = StartActionView;

    open spec fn view(&self) -> StartActionView {
        match *self {
            StartAction::OpenLog { directory, path } => StartActionView::OpenLog {
                directory: directory@,
                path: path@,
            },
            StartAction::OpenTerminal => StartActionView::OpenTerminal,
            StartAction::ReadClock => StartActionView::ReadClock,
            StartAction::Write(rec) => StartActionView::Write(rec@),
            StartAction::Spawn(spec) => StartActionView::Spawn(spec@),
            StartAction::TakePipes => StartActionView::TakePipes,
            StartAction::Watch { pid } => StartActionView::Watch { pid },
            StartAction::Done(r) => StartActionView::Done(crate::fake::stop::outcome(r)),
        }
    }
}

/// What came of it.
#[derive(Debug)]
pub enum StartEvent {
    Logged(Result<(), String>),
    TerminalOpened(Result<(), TerminalFault>),
    Clock(i64),
    Written(Result<(), WriteFault>),
    /// The process that was started, or why none was.
    Spawned(Result<u32, String>),
    PipesTaken(Result<PipeEnds, String>),
    Watched,
}

/// What follows a step: the machine, the backend and the next action.
#[verifier::ext_equal]
pub struct StartStep {
    pub machine: StartView,
    pub backend: BackendView,
    pub action: StartActionView,
}

/// A container can be started once, and only from where it was created.
pub open spec fn not_created(id: Seq<char>, state: ContainerState) -> BackendErrorView {
    BackendErrorView::FailedPrecondition(
        "container "@ + id + " is in state "@ + crate::fake::record::state_text(state)
            + ", must be Created to start"@,
    )
}

/// The record of a container that is about to be started.
pub open spec fn starting_record(rec: ContainerRecordView, now_nanos: i64) -> ContainerRecordView {
    ContainerRecordView {
        state: ContainerState::Running,
        started_at_nanos: now_nanos,
        pid: 0,
        reason: "starting"@,
        ..rec
    }
}

/// The record of a container whose process runs.
pub open spec fn started_record(rec: ContainerRecordView, pid: u32) -> ContainerRecordView {
    ContainerRecordView { pid, reason: Seq::empty(), ..rec }
}

/// The record of a container whose process could not be started.
pub open spec fn failed_record(
    rec: ContainerRecordView,
    now_nanos: i64,
    fault: Seq<char>,
) -> ContainerRecordView {
    ContainerRecordView {
        state: ContainerState::Exited,
        finished_at_nanos: now_nanos,
        exit_code: -1i32,
        reason: "spawn-failed"@,
        message: fault,
        ..rec
    }
}

/// A process that could not be started.
pub open spec fn not_spawned(id: Seq<char>, fault: Seq<char>) -> BackendErrorView {
    BackendErrorView::Internal("spawn container "@ + id + ": "@ + fault)
}

/// The streams held of a container on a terminal.
pub open spec fn terminal_io() -> ContainerIo {
    ContainerIo { pty_master: true, stdout: false, stderr: false, stdin: false }
}

/// The streams held of a container on pipes.
pub open spec fn pipe_io(ends: PipeEnds) -> ContainerIo {
    ContainerIo {
        pty_master: false,
        stdout: ends.stdout,
        stderr: ends.stderr,
        stdin: ends.stdin,
    }
}

/// The ends of a process's pipes as they were asked for.
pub open spec fn asked_ends(config: ContainerConfigView) -> PipeEnds {
    PipeEnds { stdout: true, stderr: true, stdin: config.stdin }
}

/// The streams held of a container that was started, where the ends of its pipes were taken as they
/// were asked for.
pub open spec fn own_io(config: ContainerConfigView) -> ContainerIo {
    if config.tty {
        terminal_io()
    } else {
        pipe_io(asked_ends(config))
    }
}

/// Whether the ends of pipes were taken as they were asked for, wherever they were taken.
pub open spec fn ends_as_asked(config: ContainerConfigView, events: Seq<StartEvent>) -> bool {
    forall|i: int|
        0 <= i < events.len() ==> (#[trigger] events[i] matches StartEvent::PipesTaken(Ok(ends))
            ==> ends == asked_ends(config))
}

/// Where a container's standard streams go.
pub open spec fn own_stdio(config: ContainerConfigView) -> SpawnStdio {
    if config.tty {
        SpawnStdio::Terminal
    } else {
        SpawnStdio::Pipes { stdin: config.stdin }
    }
}

impl BackendView {
    /// Where the log of a container in the sandbox goes.
    pub open spec fn log_directory(self, sandbox: Seq<char>) -> Seq<char> {
        if self.sandboxes.dom().contains(sandbox) {
            self.sandboxes[sandbox].config.log_directory
        } else {
            Seq::empty()
        }
    }
}

impl StartView {
    /// Past the log, there is a command to run.
    pub open spec fn wf(self) -> bool {
        self.phase == StartPhase::Logging || self.phase == StartPhase::Over
            || crate::fake::spawn::own_command(self.config).len() > 0
    }

    /// The events that answer the pending action.
    pub open spec fn awaits(self, event: StartEvent) -> bool {
        match self.phase {
            StartPhase::Logging => event is Logged,
            StartPhase::Opening => event is TerminalOpened,
            StartPhase::Timing => event is Clock,
            StartPhase::Intending => event is Written,
            StartPhase::Spawning => event is Spawned,
            StartPhase::Wiring => event is PipesTaken,
            StartPhase::FailTiming => event is Clock,
            StartPhase::FailWriting => event is Written,
            StartPhase::Noting => event is Written,
            StartPhase::Watching => event is Watched,
            StartPhase::Over => false,
        }
    }

    /// How starting a container begins, or why it does not. The log is opened first, so that it is
    /// there even if the container never writes to it.
    pub open spec fn begun(b: BackendView, id: Seq<char>) -> Result<StartStep, BackendErrorView> {
        if !b.containers.dom().contains(id) {
            Err(crate::fake::container::no_container(id))
        } else {
            let rec = b.containers[id];
            if rec.state != ContainerState::Created {
                Err(not_created(id, rec.state))
            } else {
                let m = StartView {
                    id,
                    config: rec.config,
                    pid: 0,
                    fault: Seq::empty(),
                    phase: StartPhase::Logging,
                };
                let directory = b.log_directory(rec.sandbox);
                if directory.len() > 0 && rec.config.log_path.len() > 0 {
                    Ok(
                        m.to(
                            StartPhase::Logging,
                            b,
                            StartActionView::OpenLog { directory, path: rec.config.log_path },
                        ),
                    )
                } else {
                    Ok(m.logged(b))
                }
            }
        }
    }

    /// On to the phase, with the action pending.
    pub open spec fn to(self, phase: StartPhase, b: BackendView, action: StartActionView) -> StartStep {
        StartStep { machine: StartView { phase, ..self }, backend: b, action }
    }

    /// Over, with this outcome.
    pub open spec fn over(self, b: BackendView, r: Result<(), BackendErrorView>) -> StartStep {
        self.to(StartPhase::Over, b, StartActionView::Done(r))
    }

    /// What comes once the log is open, or where none is written.
    pub open spec fn past_log(self) -> (StartPhase, StartActionView) {
        if crate::fake::spawn::own_command(self.config).len() == 0 {
            (
                StartPhase::Over,
                StartActionView::Done(Err(BackendErrorView::InvalidArgument("empty command"@))),
            )
        } else if self.config.tty {
            (StartPhase::Opening, StartActionView::OpenTerminal)
        } else {
            (StartPhase::Timing, StartActionView::ReadClock)
        }
    }

    /// After the log was opened, or where none is written.
    pub open spec fn logged(self, b: BackendView) -> StartStep {
        self.to(self.past_log().0, b, self.past_log().1)
    }

    /// The process runs and its streams are held: it is noted in the record.
    pub open spec fn noted(self, b: BackendView) -> StartStep {
        if b.containers.dom().contains(self.id) {
            let rec = started_record(b.containers[self.id], self.pid);
            self.to(StartPhase::Noting, b.put_container(rec), StartActionView::Write(rec))
        } else {
            self.over(b, Err(crate::fake::container::no_container(self.id)))
        }
    }

    /// How it goes on after an event that it awaits.
    pub open spec fn next(self, b: BackendView, event: StartEvent) -> StartStep {
        match event {
            StartEvent::Logged(Ok(_)) => self.logged(b),
            StartEvent::Logged(Err(e)) => self.over(b, Err(BackendErrorView::Io(e@))),
            StartEvent::TerminalOpened(Ok(_)) => self.to(
                StartPhase::Timing,
                b,
                StartActionView::ReadClock,
            ),
            StartEvent::TerminalOpened(Err(f)) => self.over(b, Err(terminal_fault(f))),
            StartEvent::Clock(now_nanos) => if self.phase == StartPhase::Timing {
                self.intended(b, now_nanos)
            } else {
                self.failed(b, now_nanos)
            },
            StartEvent::Written(w) => match self.phase {
                StartPhase::Intending => match w {
                    Ok(_) => self.to(
                        StartPhase::Spawning,
                        b,
                        StartActionView::Spawn(
                            crate::fake::spawn::spawn_of(
                                crate::fake::spawn::own_command(self.config),
                                self.config,
                                own_stdio(self.config),
                                true,
                            ),
                        ),
                    ),
                    Err(f) => self.over(b, Err(crate::fake::disk::write_error_of(f))),
                },
                StartPhase::Noting => match w {
                    Ok(_) => self.to(
                        StartPhase::Watching,
                        b,
                        StartActionView::Watch { pid: self.pid },
                    ),
                    Err(f) => self.over(b, Err(crate::fake::disk::write_error_of(f))),
                },
                _ => self.over(b, Err(not_spawned(self.id, self.fault))),
            },
            StartEvent::Spawned(Ok(pid)) => {
                let m = StartView { pid, ..self };
                if self.config.tty {
                    m.noted(b.put_io(self.id, terminal_io()))
                } else {
                    m.to(StartPhase::Wiring, b, StartActionView::TakePipes)
                }
            },
            StartEvent::Spawned(Err(e)) => StartView { fault: e@, ..self }.to(
                StartPhase::FailTiming,
                b,
                StartActionView::ReadClock,
            ),
            StartEvent::PipesTaken(Ok(ends)) => self.noted(b.put_io(self.id, pipe_io(ends))),
            StartEvent::PipesTaken(Err(e)) => self.over(b, Err(BackendErrorView::Io(e@))),
            StartEvent::Watched => self.over(b, Ok(())),
        }
    }

    /// The intent to start is written before there is a process.
    pub open spec fn intended(self, b: BackendView, now_nanos: i64) -> StartStep {
        if b.containers.dom().contains(self.id) {
            let rec = starting_record(b.containers[self.id], now_nanos);
            self.to(StartPhase::Intending, b.put_container(rec), StartActionView::Write(rec))
        } else {
            self.over(b, Err(crate::fake::container::no_container(self.id)))
        }
    }

    /// A process that could not be started leaves an exited container.
    pub open spec fn failed(self, b: BackendView, now_nanos: i64) -> StartStep {
        if b.containers.dom().contains(self.id) {
            let rec = failed_record(b.containers[self.id], now_nanos, self.fault);
            self.to(StartPhase::FailWriting, b.put_container(rec), StartActionView::Write(rec))
        } else {
            self.over(b, Err(not_spawned(self.id, self.fault)))
        }
    }
}

impl FakeBackend {
    fn log_dir_of(&self, sandbox: &str) -> (r: String)
        ensures
            r@ == self@.log_directory(sandbox@),
    {
        match self.sandboxes.get(sandbox) {
            Some(sb) => sb.config.log_directory.clone(),
            None => String::new(),
        }
    }
}

impl StartContainer {
    /// Begins to start the container, or says why it cannot be started.
    pub fn begin(backend: &FakeBackend, id: &ContainerId) -> (r: Result<
        (StartContainer, StartAction),
        BackendError,
    >)
        ensures
            match StartView::begun(backend@, id@) {
                Ok(step) => r matches Ok(s) && s.0@ == step.machine && s.1@ == step.action
                    && step.backend == backend@ && s.0@.wf(),
                Err(e) => r matches Err(x) && x@ == e,
            },
    {
        let rec = match backend.containers.get(id.0.as_str()) {
            None => {
                return Err(no_container_error(id));
            },
            Some(rec) => rec,
        };
        if rec.state != ContainerState::Created {
            let mut m = join3("container ", id.0.as_str(), " is in state ");
            m.append(state_name(rec.state));
            m.append(", must be Created to start");
            return Err(BackendError::FailedPrecondition(m));
        }
        let mut m = StartContainer {
            id: id.clone(),
            config: rec.config.clone(),
            pid: 0,
            fault: String::new(),
            phase: StartPhase::Logging,
        };
        let directory = backend.log_dir_of(rec.sandbox.0.as_str());
        if wants_log(directory.as_str(), rec.config.log_path.as_str()) {
            let path = rec.config.log_path.clone();
            Ok((m, StartAction::OpenLog { directory, path }))
        } else {
            let a = m.log_opened();
            Ok((m, a))
        }
    }

    fn finish(&mut self, r: Result<(), BackendError>) -> (a: StartAction)
        ensures
            final(self)@ == (StartView { phase: StartPhase::Over, ..old(self)@ }),
            a@ == StartActionView::Done(crate::fake::stop::outcome(r)),
    {
        self.phase = StartPhase::Over;
        StartAction::Done(r)
    }

    fn log_opened(&mut self) -> (a: StartAction)
        ensures
            final(self)@ == (StartView { phase: old(self)@.past_log().0, ..old(self)@ }),
            a@ == old(self)@.past_log().1,
    {
        let cmd = command_line(&self.config);
        assert(cmd.deep_view().len() == cmd@.len());
        if cmd.len() == 0 {
            self.finish(Err(BackendError::InvalidArgument("empty command".to_owned())))
        } else if self.config.tty {
            self.phase = StartPhase::Opening;
            StartAction::OpenTerminal
        } else {
            self.phase = StartPhase::Timing;
            StartAction::ReadClock
        }
    }

    fn note(&mut self, backend: &mut FakeBackend) -> (a: StartAction)
        requires
            old(backend)@.wf(),
        ensures
            final(backend)@.wf(),
            final(self)@ == old(self)@.noted(old(backend)@).machine,
            final(backend)@ == old(self)@.noted(old(backend)@).backend,
            a@ == old(self)@.noted(old(backend)@).action,
    {
        let rec = match backend.containers.get(self.id.0.as_str()) {
            None => {
                return self.finish(Err(no_container_error(&self.id)));
            },
            Some(rec) => {
                let mut rec = rec.clone();
                rec.pid = self.pid;
                rec.reason = String::new();
                rec
            },
        };
        backend.store_container(rec.clone());
        self.phase = StartPhase::Noting;
        StartAction::Write(rec)
    }

    fn intend(&mut self, backend: &mut FakeBackend, now_nanos: i64) -> (a: StartAction)
        requires
            old(backend)@.wf(),
        ensures
            final(backend)@.wf(),
            final(self)@ == old(self)@.intended(old(backend)@, now_nanos).machine,
            final(backend)@ == old(self)@.intended(old(backend)@, now_nanos).backend,
            a@ == old(self)@.intended(old(backend)@, now_nanos).action,
    {
        let rec = match backend.containers.get(self.id.0.as_str()) {
            None => {
                return self.finish(Err(no_container_error(&self.id)));
            },
            Some(rec) => {
                let mut rec = rec.clone();
                rec.state = ContainerState::Running;
                rec.started_at_nanos = now_nanos;
                rec.pid = 0;
                rec.reason = "starting".to_owned();
                rec
            },
        };
        backend.store_container(rec.clone());
        self.phase = StartPhase::Intending;
        StartAction::Write(rec)
    }

    fn not_spawned_error(&self) -> (r: BackendError)
        ensures
            r@ == not_spawned(self@.id, self@.fault),
    {
        let mut m = join3("spawn container ", self.id.0.as_str(), ": ");
        m.append(self.fault.as_str());
        BackendError::Internal(m)
    }

    fn fail(&mut self, backend: &mut FakeBackend, now_nanos: i64) -> (a: StartAction)
        requires
            old(backend)@.wf(),
        ensures
            final(backend)@.wf(),
            final(self)@ == old(self)@.failed(old(backend)@, now_nanos).machine,
            final(backend)@ == old(self)@.failed(old(backend)@, now_nanos).backend,
            a@ == old(self)@.failed(old(backend)@, now_nanos).action,
    {
        let rec = match backend.containers.get(self.id.0.as_str()) {
            None => {
                return self.finish(Err(self.not_spawned_error()));
            },
            Some(rec) => {
                let mut rec = rec.clone();
                rec.state = ContainerState::Exited;
                rec.finished_at_nanos = now_nanos;
                rec.exit_code = -1;
                rec.reason = "spawn-failed".to_owned();
                rec.message = self.fault.clone();
                rec
            },
        };
        backend.store_container(rec.clone());
        self.phase = StartPhase::FailWriting;
        StartAction::Write(rec)
    }

    fn spawn(&mut self) -> (a: StartAction)
        requires
            crate::fake::spawn::own_command(old(self)@.config).len() > 0,
        ensures
            final(self)@ == (StartView { phase: StartPhase::Spawning, ..old(self)@ }),
            a@ == StartActionView::Spawn(
                crate::fake::spawn::spawn_of(
                    crate::fake::spawn::own_command(old(self)@.config),
                    old(self)@.config,
                    own_stdio(old(self)@.config),
                    true,
                ),
            ),
    {
        let cmd = command_line(&self.config);
        assert(cmd.deep_view().len() == cmd@.len());
        let stdio = if self.config.tty {
            SpawnStdio::Terminal
        } else {
            SpawnStdio::Pipes { stdin: self.config.stdin }
        };
        self.phase = StartPhase::Spawning;
        StartAction::Spawn(spawn_spec(&cmd, &self.config, stdio, true))
    }

    fn hold(&self, backend: &mut FakeBackend, io: ContainerIo)
        requires
            old(backend)@.wf(),
        ensures
            final(backend)@.wf(),
            final(backend)@ == old(backend)@.put_io(self@.id, io),
    {
        backend.io_table.insert(self.id.0.clone(), io);
        assert(backend@ =~= old(backend)@.put_io(self@.id, io));
    }

    /// Goes on after an event.
    pub fn next(&mut self, backend: &mut FakeBackend, event: StartEvent) -> (r: StartAction)
        requires
            old(backend)@.wf(),
            old(self)@.awaits(event),
            old(self)@.wf(),
        ensures
            final(backend)@.wf(),
            final(self)@.wf(),
            final(self)@ == old(self)@.next(old(backend)@, event).machine,
            final(backend)@ == old(self)@.next(old(backend)@, event).backend,
            r@ == old(self)@.next(old(backend)@, event).action,
    {
        match (self.phase, event) {
            (StartPhase::Logging, StartEvent::Logged(r)) => match r {
                Ok(_) => self.log_opened(),
                Err(e) => self.finish(Err(BackendError::Io(e))),
            },
            (StartPhase::Opening, StartEvent::TerminalOpened(r)) => match r {
                Ok(_) => {
                    self.phase = StartPhase::Timing;
                    StartAction::ReadClock
                },
                Err(f) => self.finish(Err(terminal_error(f))),
            },
            (StartPhase::Timing, StartEvent::Clock(now_nanos)) => self.intend(backend, now_nanos),
            (StartPhase::Intending, StartEvent::Written(w)) => match w {
                Ok(_) => self.spawn(),
                Err(f) => self.finish(Err(write_error(f))),
            },
            (StartPhase::Spawning, StartEvent::Spawned(r)) => match r {
                Ok(pid) => {
                    self.pid = pid;
                    if self.config.tty {
                        self.hold(
                            backend,
                            ContainerIo {
                                pty_master: true,
                                stdout: false,
                                stderr: false,
                                stdin: false,
                            },
                        );
                        self.note(backend)
                    } else {
                        self.phase = StartPhase::Wiring;
                        StartAction::TakePipes
                    }
                },
                Err(e) => {
                    self.fault = e;
                    self.phase = StartPhase::FailTiming;
                    StartAction::ReadClock
                },
            },
            (StartPhase::Wiring, StartEvent::PipesTaken(r)) => match r {
                Ok(ends) => {
                    self.hold(
                        backend,
                        ContainerIo {
                            pty_master: false,
                            stdout: ends.stdout,
                            stderr: ends.stderr,
                            stdin: ends.stdin,
                        },
                    );
                    self.note(backend)
                },
                Err(e) => self.finish(Err(BackendError::Io(e))),
            },
            (StartPhase::FailTiming, StartEvent::Clock(now_nanos)) => self.fail(backend, now_nanos),
            (StartPhase::FailWriting, StartEvent::Written(_)) => self.finish(
                Err(self.not_spawned_error()),
            ),
            (StartPhase::Noting, StartEvent::Written(w)) => match w {
                Ok(_) => {
                    self.phase = StartPhase::Watching;
                    StartAction::Watch { pid: self.pid }
                },
                Err(f) => self.finish(Err(write_error(f))),
            },
            (StartPhase::Watching, StartEvent::Watched) => self.finish(Ok(())),
            _ => unreached(),
        }
    }
}

/// A container being started, and what the files say meanwhile.
#[verifier::ext_equal]
pub struct StartRun {
    pub step: StartStep,
    pub disk: DiskView,
}

impl StartRun {
    /// After the pending action was done and gave the event.
    pub open spec fn after(self, event: StartEvent) -> StartRun {
        StartRun {
            step: self.step.machine.next(self.step.backend, event),
            disk: match (self.step.action, event) {
                (
                    StartActionView::Write(rec),
                    StartEvent::Written(Ok(_)),
                ) => self.disk.wrote_container(rec),
                _ => self.disk,
            },
        }
    }

    /// After all of the events.
    pub open spec fn after_all(self, events: Seq<StartEvent>) -> StartRun
        decreases events.len(),
    {
        if events.len() == 0 {
            self
        } else {
            self.after(events[0]).after_all(events.drop_first())
        }
    }

    /// Whether each of the events answers what was pending.
    pub open spec fn answered_by(self, events: Seq<StartEvent>) -> bool
        decreases events.len(),
    {
        events.len() > 0 ==> self.step.machine.awaits(events[0]) && self.after(
            events[0],
        ).answered_by(events.drop_first())
    }

    /// Whether there may be a process of the container that no file tells of.
    pub open spec fn in_start_window(self) -> bool {
        self.step.machine.phase == StartPhase::Spawning || self.step.machine.phase
            == StartPhase::Wiring || self.step.machine.phase == StartPhase::Noting
    }

    /// What holds on the way, for a container of `b0` that was created.
    spec fn on_the_way(self, b0: BackendView, id: Seq<char>, as_asked: bool) -> bool {
        let m = self.step.machine;
        let b = self.step.backend;
        let rec = b.containers[id];
        let starting = starting_record(b0.containers[id], rec.started_at_nanos);
        &&& m.id == id
        &&& m.config == b0.containers[id].config
        &&& self.step.action is Done <==> m.phase == StartPhase::Over
        &&& m.phase == StartPhase::Intending || m.phase == StartPhase::FailWriting || m.phase
            == StartPhase::Noting ==> self.step.action == StartActionView::Write(rec)
        &&& match m.phase {
            StartPhase::Logging | StartPhase::Opening | StartPhase::Timing => b == b0 && self.disk
                == b0.disk(),
            StartPhase::Intending => {
                &&& rec == starting
                &&& b == b0.put_container(rec)
                &&& self.disk == b0.disk()
            },
            StartPhase::Spawning | StartPhase::FailTiming => {
                &&& rec == starting
                &&& b == b0.put_container(rec)
                &&& self.disk == b.disk()
            },
            StartPhase::Noting => {
                &&& is_started(b0, id, b)
                &&& as_asked || m.config.tty ==> b.io[id] == own_io(m.config)
                &&& rec.pid == m.pid
                &&& self.disk == b0.put_container(starting).disk()
            },
            StartPhase::Watching => {
                &&& is_started(b0, id, b)
                &&& as_asked || m.config.tty ==> b.io[id] == own_io(m.config)
                &&& self.step.action == StartActionView::Watch { pid: rec.pid }
                &&& self.disk == b.disk()
            },
            StartPhase::FailWriting => true,
            StartPhase::Over => self.step.action == StartActionView::Done(Ok(())) ==> {
                &&& is_started(b0, id, b)
                &&& as_asked || m.config.tty ==> b.io[id] == own_io(m.config)
                &&& self.disk == b.disk()
            },
            StartPhase::Wiring => {
                &&& !m.config.tty
                &&& rec == starting
                &&& b == b0.put_container(rec)
                &&& self.disk == b.disk()
            },
        }
    }
}

/// Whether `b` is `b0` with the container started: running, its process noted, its streams held.
pub open spec fn is_started(b0: BackendView, id: Seq<char>, b: BackendView) -> bool {
    let rec = b.containers[id];
    &&& rec == started_record(
        starting_record(b0.containers[id], rec.started_at_nanos),
        rec.pid,
    )
    &&& b.io.dom().contains(id)
    &&& b == b0.put_container(rec).put_io(id, b.io[id])
}

/// Once a container has been started it is running, its process is noted and its streams are held:
/// its terminal, or else the pipes that it was configured to have. Nothing else has changed, and the
/// files agree.
pub proof fn law_started_is_running(b0: BackendView, id: Seq<char>, events: Seq<StartEvent>)
    requires
        b0.wf(),
        StartView::begun(b0, id) is Ok,
        (StartRun { step: StartView::begun(b0, id)->Ok_0, disk: b0.disk() }).answered_by(events),
    ensures
        ({
            let end = (StartRun {
                step: StartView::begun(b0, id)->Ok_0,
                disk: b0.disk(),
            }).after_all(events);
            end.step.action == StartActionView::Done(Ok(())) ==> {
                &&& end.step.backend.is_running(id)
                &&& is_started(b0, id, end.step.backend)
                &&& ends_as_asked(b0.containers[id].config, events) || b0.containers[id].config.tty
                    ==> end.step.backend.io[id] == own_io(b0.containers[id].config)
                &&& end.disk == end.step.backend.disk()
            }
        }),
{
    let start = StartRun { step: StartView::begun(b0, id)->Ok_0, disk: b0.disk() };
    let as_asked = ends_as_asked(b0.containers[id].config, events);
    lemma_on_the_way(start, b0, id, events, as_asked);
    assert(b0.containers[id].id == id);
}

/// From before there is a process until it has been noted, the files tell of the intent to start.
/// So whoever opens the state again after a crash finds the container exited, its start lost.
pub proof fn law_crash_while_starting_is_noticed(
    b0: BackendView,
    id: Seq<char>,
    events: Seq<StartEvent>,
    alive: bool,
    now_nanos: i64,
)
    requires
        b0.wf(),
        StartView::begun(b0, id) is Ok,
        (StartRun { step: StartView::begun(b0, id)->Ok_0, disk: b0.disk() }).answered_by(events),
    ensures
        ({
            let end = (StartRun {
                step: StartView::begun(b0, id)->Ok_0,
                disk: b0.disk(),
            }).after_all(events);
            end.in_start_window() ==> {
                &&& end.disk.containers.dom().contains(id)
                &&& crate::fake::record::recovered(end.disk.containers[id], alive, now_nanos)
                    == crate::fake::record::lost(
                    end.disk.containers[id],
                    "lost-start-window"@,
                    now_nanos,
                )
            }
        }),
{
    let start = StartRun { step: StartView::begun(b0, id)->Ok_0, disk: b0.disk() };
    lemma_on_the_way(start, b0, id, events, false);
    assert(b0.containers[id].id == id);
}

proof fn lemma_on_the_way(
    run: StartRun,
    b0: BackendView,
    id: Seq<char>,
    events: Seq<StartEvent>,
    as_asked: bool,
)
    requires
        b0.wf(),
        b0.containers.dom().contains(id),
        run.on_the_way(b0, id, as_asked),
        run.answered_by(events),
        as_asked ==> ends_as_asked(b0.containers[id].config, events),
    ensures
        run.after_all(events).on_the_way(b0, id, as_asked),
    decreases events.len(),
{
    if events.len() > 0 {
        let next = run.after(events[0]);
        lemma_stays_on_the_way(run, b0, id, events[0], as_asked);
        if as_asked {
            assert forall|i: int| 0 <= i < events.drop_first().len() implies (
            #[trigger] events.drop_first()[i] matches StartEvent::PipesTaken(Ok(ends)) ==> ends
                == asked_ends(b0.containers[id].config)) by {
                assert(events.drop_first()[i] == events[i + 1]);
            }
        }
        lemma_on_the_way(next, b0, id, events.drop_first(), as_asked);
    }
}

proof fn lemma_stays_on_the_way(
    run: StartRun,
    b0: BackendView,
    id: Seq<char>,
    event: StartEvent,
    as_asked: bool,
)
    requires
        b0.wf(),
        b0.containers.dom().contains(id),
        run.on_the_way(b0, id, as_asked),
        run.step.machine.awaits(event),
        as_asked ==> (event matches StartEvent::PipesTaken(Ok(ends)) ==> ends == asked_ends(
            b0.containers[id].config,
        )),
    ensures
        run.after(event).on_the_way(b0, id, as_asked),
{
    let next = run.after(event);
    assert(b0.containers[id].id == id);
    let b = next.step.backend;
    let rec = b.containers[id];
    match run.step.machine.phase {
        StartPhase::Spawning | StartPhase::Wiring => {
            if next.step.machine.phase == StartPhase::Noting {
                let starting = starting_record(b0.containers[id], rec.started_at_nanos);
                assert(run.step.backend == b0.put_container(starting));
                assert(rec == started_record(starting, next.step.machine.pid));
                assert(b =~= b0.put_container(rec).put_io(id, b.io[id]));
                assert(is_started(b0, id, b));
                assert(next.disk == b0.put_container(starting).disk());
            }
        },
        StartPhase::Intending | StartPhase::Noting => {
            if event matches StartEvent::Written(Ok(_)) {
                assert(next.disk =~= b.disk());
            }
        },
        _ => {},
    }
}

/// A container whose process could not be started has exited, whether or not that could be
/// written, and the start fails.
pub proof fn law_failed_spawn_leaves_it_exited(
    m: StartView,
    b: BackendView,
    fault: String,
    now_nanos: i64,
    written: Result<(), WriteFault>,
)
    requires
        b.wf(),
        m.phase == StartPhase::Spawning,
        b.containers.dom().contains(m.id),
    ensures
        ({
            let timed = m.next(b, StartEvent::Spawned(Err(fault)));
            let noted = timed.machine.next(timed.backend, StartEvent::Clock(now_nanos));
            let end = noted.machine.next(noted.backend, StartEvent::Written(written));
            &&& noted.action == StartActionView::Write(end.backend.containers[m.id])
            &&& end.backend == b.put_container(
                failed_record(b.containers[m.id], now_nanos, fault@),
            )
            &&& end.backend.containers[m.id].state == ContainerState::Exited
            &&& end.action == StartActionView::Done(Err(not_spawned(m.id, fault@)))
        }),
{
    assert(b.containers[m.id].id == m.id);
}

/// A container that was started, or has ended, cannot be started.
pub proof fn law_start_only_from_created(b: BackendView, id: Seq<char>)
    ensures
        StartView::begun(b, id) is Ok <==> b.containers.dom().contains(id)
            && b.containers[id].state == ContainerState::Created,
{
}

/// Whenever a container is being started and its process is to be started next, that process runs
/// the configured command followed by the configured arguments, in the configured directory and with
/// the configured environment, in a session of its own: on a terminal if one is configured, and else
/// on pipes, with input if that is configured.
pub proof fn law_container_runs_as_configured(
    b0: BackendView,
    id: Seq<char>,
    events: Seq<StartEvent>,
)
    requires
        b0.wf(),
        StartView::begun(b0, id) is Ok,
        (StartRun { step: StartView::begun(b0, id)->Ok_0, disk: b0.disk() }).answered_by(events),
    ensures
        ({
            let end = (StartRun {
                step: StartView::begun(b0, id)->Ok_0,
                disk: b0.disk(),
            }).after_all(events);
            let config = b0.containers[id].config;
            end.step.action matches StartActionView::Spawn(s) ==> {
                &&& seq![s.program] + s.args == config.command + config.args
                &&& s.cwd == if config.working_dir.len() == 0 {
                    None
                } else {
                    Some(config.working_dir)
                }
                &&& s.envs == config.envs
                &&& s.stdio == if config.tty {
                    SpawnStdio::Terminal
                } else {
                    SpawnStdio::Pipes { stdin: config.stdin }
                }
                &&& s.new_session
            }
        }),
{
    let start = StartRun { step: StartView::begun(b0, id)->Ok_0, disk: b0.disk() };
    lemma_spawn_on_the_way(start, b0.containers[id].config, events);
}

/// What holds of the process to be started, wherever a start has got to.
spec fn spawns_own(run: StartRun, config: ContainerConfigView) -> bool {
    let m = run.step.machine;
    &&& m.config == config
    &&& m.wf()
    &&& run.step.action matches StartActionView::Spawn(s) ==> s == crate::fake::spawn::spawn_of(
        config.command + config.args,
        config,
        if config.tty {
            SpawnStdio::Terminal
        } else {
            SpawnStdio::Pipes { stdin: config.stdin }
        },
        true,
    ) && config.command.len() + config.args.len() > 0
}

proof fn lemma_spawn_on_the_way(
    run: StartRun,
    config: ContainerConfigView,
    events: Seq<StartEvent>,
)
    requires
        spawns_own(run, config),
        run.answered_by(events),
    ensures
        spawns_own(run.after_all(events), config),
        run.after_all(events).step.action matches StartActionView::Spawn(s) ==> {
            &&& seq![s.program] + s.args == config.command + config.args
            &&& s.cwd == if config.working_dir.len() == 0 {
                None
            } else {
                Some(config.working_dir)
            }
            &&& s.envs == config.envs
            &&& s.new_session
        },
    decreases events.len(),
{
    if events.len() == 0 {
        if let StartActionView::Spawn(s) = run.step.action {
            crate::fake::spawn::law_process_is_started_as_configured(
                config.command + config.args,
                config,
                s.stdio,
                true,
            );
        }
    } else {
        lemma_spawn_on_the_way(run.after(events[0]), config, events.drop_first());
    }
}

/// The course of a start, from when the time is known. First the container is written down as
/// running since then, without a process; then the process is started; then it is written down with
/// its process; then it is watched, and the start has succeeded. What the container is, and what is
/// known of earlier ends, stays as it was.
pub proof fn law_start_is_written_before_and_after(
    m: StartView,
    b: BackendView,
    now_nanos: i64,
    pid: u32,
    ends: PipeEnds,
)
    requires
        b.wf(),
        m.phase == StartPhase::Timing,
        b.containers.dom().contains(m.id),
        m.config.command.len() + m.config.args.len() > 0,
    ensures
        ({
            let before = b.containers[m.id];
            let intended = m.next(b, StartEvent::Clock(now_nanos));
            let spawning = intended.machine.next(intended.backend, StartEvent::Written(Ok(())));
            let spawned = spawning.machine.next(spawning.backend, StartEvent::Spawned(Ok(pid)));
            let noted = if m.config.tty {
                spawned
            } else {
                spawned.machine.next(spawned.backend, StartEvent::PipesTaken(Ok(ends)))
            };
            let watching = noted.machine.next(noted.backend, StartEvent::Written(Ok(())));
            let done = watching.machine.next(watching.backend, StartEvent::Watched);
            let rec = done.backend.containers[m.id];
            &&& intended.action matches StartActionView::Write(r) && r.state
                == ContainerState::Running && r.pid == 0 && r.started_at_nanos == now_nanos
                && r.id == m.id && r.config == before.config && r.sandbox == before.sandbox
                && r.created_at_nanos == before.created_at_nanos && r.reason == "starting"@
            &&& intended.backend.containers[m.id] == intended.action->Write_0
            &&& spawning.action is Spawn
            &&& !m.config.tty ==> spawned.action == StartActionView::TakePipes
            &&& noted.action == StartActionView::Write(rec)
            &&& watching.action == StartActionView::Watch { pid }
            &&& done.action == StartActionView::Done(Ok(()))
            &&& rec.state == ContainerState::Running
            &&& rec.pid == pid
            &&& rec.started_at_nanos == now_nanos
            &&& rec.reason == Seq::<char>::empty()
            &&& rec.id == m.id && rec.sandbox == before.sandbox && rec.config == before.config
            &&& rec.created_at_nanos == before.created_at_nanos && rec.finished_at_nanos
                == before.finished_at_nanos && rec.exit_code == before.exit_code && rec.message
                == before.message
            &&& done.backend.io.dom().contains(m.id)
            &&& m.config.tty ==> done.backend.io[m.id].pty_master && !done.backend.io[m.id].stdin
                && !done.backend.io[m.id].stdout && !done.backend.io[m.id].stderr
            &&& !m.config.tty ==> !done.backend.io[m.id].pty_master && done.backend.io[m.id].stdin
                == ends.stdin && done.backend.io[m.id].stdout == ends.stdout
                && done.backend.io[m.id].stderr == ends.stderr
            &&& crate::fake::stop::only_differs_at(b, m.id, done.backend)
        }),
{
    let done = {
        let intended = m.next(b, StartEvent::Clock(now_nanos));
        let spawning = intended.machine.next(intended.backend, StartEvent::Written(Ok(())));
        let spawned = spawning.machine.next(spawning.backend, StartEvent::Spawned(Ok(pid)));
        let noted = if m.config.tty {
            spawned
        } else {
            spawned.machine.next(spawned.backend, StartEvent::PipesTaken(Ok(ends)))
        };
        let watching = noted.machine.next(noted.backend, StartEvent::Written(Ok(())));
        watching.machine.next(watching.backend, StartEvent::Watched)
    };
    assert(b.containers[m.id].id == m.id);
    assert(done.backend.containers.remove(m.id) =~= b.containers.remove(m.id));
    assert(done.backend.io.remove(m.id) =~= b.io.remove(m.id));
}

/// A process that cannot be started leaves the container exited at the time that is read then, with
/// no code, and with the reason in its record; what the container is stays as it was, and so does
/// everything else. The start fails, whether or not that could be written.
pub proof fn law_failed_spawn_is_recorded(
    m: StartView,
    b: BackendView,
    fault: String,
    now_nanos: i64,
    written: Result<(), WriteFault>,
)
    requires
        b.wf(),
        m.phase == StartPhase::Spawning,
        b.containers.dom().contains(m.id),
    ensures
        ({
            let before = b.containers[m.id];
            let timed = m.next(b, StartEvent::Spawned(Err(fault)));
            let noted = timed.machine.next(timed.backend, StartEvent::Clock(now_nanos));
            let end = noted.machine.next(noted.backend, StartEvent::Written(written));
            let rec = end.backend.containers[m.id];
            &&& timed.action == StartActionView::ReadClock
            &&& noted.action == StartActionView::Write(rec)
            &&& rec.state == ContainerState::Exited
            &&& rec.exit_code == -1
            &&& rec.reason == "spawn-failed"@
            &&& rec.message == fault@
            &&& rec.finished_at_nanos == now_nanos
            &&& rec.id == m.id && rec.sandbox == before.sandbox && rec.config == before.config
            &&& rec.created_at_nanos == before.created_at_nanos && rec.started_at_nanos
                == before.started_at_nanos && rec.pid == before.pid
            &&& crate::fake::stop::only_differs_at(b, m.id, end.backend)
            &&& end.action matches StartActionView::Done(Err(e)) && e is Internal
        }),
{
    assert(b.containers[m.id].id == m.id);
    let timed = m.next(b, StartEvent::Spawned(Err(fault)));
    let noted = timed.machine.next(timed.backend, StartEvent::Clock(now_nanos));
    let end = noted.machine.next(noted.backend, StartEvent::Written(written));
    assert(end.backend.containers.remove(m.id) =~= b.containers.remove(m.id));
}

/// The log of a container is opened before anything else is done for it, where its sandbox and its
/// configuration name one. A container that nothing is configured to run is refused after that; one
/// that gets a terminal gets it next.
pub proof fn law_log_is_opened_first(b: BackendView, id: Seq<char>)
    requires
        b.containers.dom().contains(id),
        b.containers[id].state == ContainerState::Created,
        b.sandboxes.dom().contains(b.containers[id].sandbox),
    ensures
        ({
            let rec = b.containers[id];
            let directory = b.sandboxes[rec.sandbox].config.log_directory;
            let begun = StartView::begun(b, id)->Ok_0;
            let logged = if directory.len() > 0 && rec.config.log_path.len() > 0 {
                begun.machine.next(begun.backend, StartEvent::Logged(Ok(())))
            } else {
                begun
            };
            &&& StartView::begun(b, id) is Ok
            &&& directory.len() > 0 && rec.config.log_path.len() > 0 <==> begun.action is OpenLog
            &&& begun.action is OpenLog ==> begun.action == (StartActionView::OpenLog {
                directory,
                path: rec.config.log_path,
            })
            &&& begun.backend == b && logged.backend == b
            &&& logged.machine.id == id && logged.machine.config == rec.config
            &&& rec.config.command.len() + rec.config.args.len() == 0 <==> logged.action
                is Done
            &&& logged.action is Done ==> (logged.action matches StartActionView::Done(Err(e))
                && e is InvalidArgument)
            &&& rec.config.command.len() + rec.config.args.len() > 0 ==> logged.action
                == if rec.config.tty {
                StartActionView::OpenTerminal
            } else {
                StartActionView::ReadClock
            }
        }),
{
}

/// Where the log, a terminal or the pipes cannot be had, or the record cannot be written, the start
/// fails, and no process is started after that.
pub proof fn law_start_that_fails_says_so(
    m: StartView,
    b: BackendView,
    fault: String,
    written: WriteFault,
)
    ensures
        m.next(b, StartEvent::Logged(Err(fault))).action == StartActionView::Done(
            Err(BackendErrorView::Io(fault@)),
        ),
        m.next(b, StartEvent::TerminalOpened(Err(TerminalFault::Dup(fault)))).action
            == StartActionView::Done(Err(BackendErrorView::Io(fault@))),
        m.next(b, StartEvent::TerminalOpened(Err(TerminalFault::Open(fault)))).action matches
            StartActionView::Done(Err(e)) && e is Internal,
        m.next(b, StartEvent::PipesTaken(Err(fault))).action == StartActionView::Done(
            Err(BackendErrorView::Io(fault@)),
        ),
        m.phase == StartPhase::Intending || m.phase == StartPhase::Noting ==> (m.next(
            b,
            StartEvent::Written(Err(written)),
        ).action matches StartActionView::Done(Err(e)) && (match written {
            WriteFault::Io(e2) => e == BackendErrorView::Io(e2@),
            WriteFault::Serialize(_) => e is Internal,
        })),
        m.next(b, StartEvent::Logged(Err(fault))).backend == b,
        m.next(b, StartEvent::TerminalOpened(Err(TerminalFault::Dup(fault)))).backend == b,
        m.next(b, StartEvent::PipesTaken(Err(fault))).backend == b,
        m.next(b, StartEvent::Written(Err(written))).backend == b,
{
}

/// A container that is unknown is not found; one that is known but was started before is refused for
/// that.
pub proof fn law_refused_start_says_why(b: BackendView, id: Seq<char>)
    ensures
        StartView::begun(b, id) matches Err(e) ==> {
            &&& e is NotFound <==> !b.containers.dom().contains(id)
            &&& e is FailedPrecondition <==> b.containers.dom().contains(id)
        },
{
}

} // verus!
