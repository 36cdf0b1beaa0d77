//! Running commands in a container, and attaching to it.

use crate::fake::container::{exit_code_from_status, no_container_error, ExitReport};
use crate::fake::spawn::{not_running_error, spawn_spec, SpawnSpec, SpawnStdio, SpawnView};
use crate::fake::start::{
    terminal_error, StartActionView, StartEvent, StartRun, StartView, TerminalFault,
};
use crate::fake::{BackendView, ContainerIo, FakeBackend};
use crate::types::{
    clone_texts, BackendError, BackendErrorView, ContainerConfig, ContainerConfigView, ContainerId,
    ContainerState, ExecResult, ExecResultView,
};
use vstd::pervasive::unreached;
use vstd::prelude::*;
use vstd::string::*;

verus! {

/// How long to wait before looking again whether a command has ended.
pub const POLL_MILLIS: u64 = 10;

/// Nanoseconds in a second.
pub const NANOS_PER_SECOND: u128 = 1_000_000_000;

/// Why a command cannot be run in the container, if it cannot: the container must be running, and
/// the command must name a program.
pub open spec fn exec_refusal(
    b: BackendView,
    id: Seq<char>,
    cmd: Seq<Seq<char>>,
    operation: Seq<char>,
) -> Option<BackendErrorView> {
    if !b.containers.dom().contains(id) {
        Some(crate::fake::container::no_container(id))
    } else if b.containers[id].state != ContainerState::Running {
        Some(crate::fake::spawn::not_running(id, b.containers[id].state, operation))
    } else if cmd.len() == 0 {
        Some(BackendErrorView::InvalidArgument(operation + ": empty command"@))
    } else {
        None
    }
}

impl FakeBackend {
    fn exec_config(&self, id: &ContainerId, cmd: &Vec<String>, operation: &str) -> (r: Result<
        &ContainerConfig,
        BackendError,
    >)
        ensures
            match r {
                Ok(config) => exec_refusal(self@, id@, cmd.deep_view(), operation@) is None
                    && config@ == self@.containers[id@].config,
                Err(e) => exec_refusal(self@, id@, cmd.deep_view(), operation@) == Some(e@),
            },
    {
        let rec = match self.containers.get(id.0.as_str()) {
            None => {
                return Err(no_container_error(id));
            },
            Some(rec) => rec,
        };
        if rec.state != ContainerState::Running {
            return Err(not_running_error(id, rec.state, operation));
        }
        assert(cmd.deep_view().len() == cmd@.len());
        if cmd.len() == 0 {
            let mut m = operation.to_owned();
            m.append(": empty command");
            return Err(BackendError::InvalidArgument(m));
        }
        Ok(&rec.config)
    }
}

/// What is being waited for.
#[derive(Clone, Copy, Debug, PartialEq, Eq, Structural)]
pub enum ExecPhase {
    /// That the command was started.
    Spawning,
    /// Whether it has ended.
    Polling,
    /// That it is time to look again.
    Resting,
    /// That it was ended.
    Killing,
    /// What it had written.
    Reading,
    /// That it ends.
    Waiting,
    /// Nothing more.
    Over,
}

/// A command being run to its end.
#[derive(Debug)]
pub struct ExecSync {
    timeout_seconds: i64,
    exit_code: i32,
    phase: ExecPhase,
}

/// Where an [`ExecSync`] stands.
#[verifier::ext_equal]
pub struct ExecView {
    /// How long the command may run; without end if this is not positive.
    pub timeout_seconds: i64,
    /// How it ended, once it has.
    pub exit_code: i32,
    pub phase: ExecPhase,
}

impl View for ExecSync {
    type V = ExecView;

    closed spec fn view(&self) -> ExecView {
        ExecView {
            timeout_seconds: self.timeout_seconds,
            exit_code: self.exit_code,
            phase: self.phase,
        }
    }
}

/// What is to be done next.
#[derive(Debug)]
pub enum ExecAction {
    Spawn(SpawnSpec),
    /// See whether the command has ended, and how long it has been running.
    Poll,
    Rest { millis: u64 },
    /// End the command; whether that succeeds does not matter.
    Kill,
    /// Read what the command wrote and nobody has read.
    ReadOutput,
    /// Wait until the command ends, reading what it writes.
    Wait,
    Done(Result<ExecResult, BackendError>),
}

/// What an [`ExecAction`] asks for.
#[verifier::ext_equal]
pub enum ExecActionView {
    Spawn(SpawnView),
    Poll,
    Rest { millis: u64 },
    Kill,
    ReadOutput,
    Wait,
    Done(Result<ExecResultView, BackendErrorView>),
}

impl View for ExecAction {
    type V = ExecActionView;

    open spec fn view(&self) -> ExecActionView {
        match *self {
            ExecAction::Spawn(spec) => ExecActionView::Spawn(spec@),
            ExecAction::Poll => ExecActionView::Poll,
            ExecAction::Rest { millis } => ExecActionView::Rest { millis },
            ExecAction::Kill => ExecActionView::Kill,
            ExecAction::ReadOutput => ExecActionView::ReadOutput,
            ExecAction::Wait => ExecActionView::Wait,
            ExecAction::Done(Ok(r)) => ExecActionView::Done(Ok(r@)),
            ExecAction::Done(Err(e)) => ExecActionView::Done(Err(e@)),
        }
    }
}

/// What is seen of a command.
#[derive(Clone, Copy, Debug, PartialEq, Eq, Structural)]
pub enum Polled {
    /// It has been running for so long.
    Running { elapsed_nanos: u128 },
    /// It has ended, by a signal or with a code.
    Ended { signal: Option<i32>, code: Option<i32> },
}

/// How a command ended and what it wrote.
#[derive(Debug)]
pub struct Waited {
    pub signal: Option<i32>,
    pub code: Option<i32>,
    pub stdout: Vec<u8>,
    pub stderr: Vec<u8>,
}

/// What came of it.
#[derive(Debug)]
pub enum ExecEvent {
    Spawned(Result<(), String>),
    Polled(Result<Polled, String>),
    Rested,
    Killed,
    Output { stdout: Vec<u8>, stderr: Vec<u8> },
    Waited(Result<Waited, String>),
}

/// A signal whose exit code can be written down.
pub open spec fn signal_fits(signal: Option<i32>) -> bool {
    signal matches Some(sig) ==> 128 + sig <= i32::MAX
}

impl ExecEvent {
    /// Signals are small.
    pub open spec fn wf(self) -> bool {
        match self {
            ExecEvent::Polled(Ok(Polled::Ended { signal, code: _ })) => signal_fits(signal),
            ExecEvent::Waited(Ok(w)) => signal_fits(w.signal),
            _ => true,
        }
    }
}

impl ExecView {
    /// A command without a time to keep is only waited for.
    pub open spec fn wf(self) -> bool {
        match self.phase {
            ExecPhase::Polling | ExecPhase::Resting | ExecPhase::Killing | ExecPhase::Reading =>
                self.timeout_seconds > 0,
            ExecPhase::Waiting => self.timeout_seconds <= 0,
            _ => true,
        }
    }

    /// The events that answer the pending action.
    pub open spec fn awaits(self, event: ExecEvent) -> bool {
        match self.phase {
            ExecPhase::Spawning => event is Spawned,
            ExecPhase::Polling => event is Polled,
            ExecPhase::Resting => event is Rested,
            ExecPhase::Killing => event is Killed,
            ExecPhase::Reading => event is Output,
            ExecPhase::Waiting => event is Waited,
            ExecPhase::Over => false,
        }
    }

    /// How running a command begins, or why it does not.
    pub open spec fn begun(
        b: BackendView,
        id: Seq<char>,
        cmd: Seq<Seq<char>>,
        timeout_seconds: i64,
    ) -> Result<(ExecView, ExecActionView), BackendErrorView> {
        match exec_refusal(b, id, cmd, "exec_sync"@) {
            Some(e) => Err(e),
            None => Ok(
                (
                    ExecView { timeout_seconds, exit_code: 0, phase: ExecPhase::Spawning },
                    ExecActionView::Spawn(
                        crate::fake::spawn::spawn_of(
                            cmd,
                            b.containers[id].config,
                            SpawnStdio::Capture,
                            false,
                        ),
                    ),
                ),
            ),
        }
    }

    /// On to the phase, with the action pending.
    pub open spec fn to(self, phase: ExecPhase, action: ExecActionView) -> (
        ExecView,
        ExecActionView,
    ) {
        (ExecView { phase, ..self }, action)
    }

    /// Over, with this outcome.
    pub open spec fn over(self, r: Result<ExecResultView, BackendErrorView>) -> (
        ExecView,
        ExecActionView,
    ) {
        self.to(ExecPhase::Over, ExecActionView::Done(r))
    }

    /// How it goes on after an event that it awaits.
    pub open spec fn next(self, event: ExecEvent) -> (ExecView, ExecActionView) {
        match event {
            ExecEvent::Spawned(Ok(_)) => if self.timeout_seconds > 0 {
                self.to(ExecPhase::Polling, ExecActionView::Poll)
            } else {
                self.to(ExecPhase::Waiting, ExecActionView::Wait)
            },
            ExecEvent::Spawned(Err(e)) => self.over(
                Err(BackendErrorView::Internal("exec_sync spawn: "@ + e@)),
            ),
            ExecEvent::Polled(Ok(Polled::Running { elapsed_nanos })) => if elapsed_nanos
                >= self.timeout_seconds * NANOS_PER_SECOND {
                self.to(ExecPhase::Killing, ExecActionView::Kill)
            } else {
                self.to(ExecPhase::Resting, ExecActionView::Rest { millis: POLL_MILLIS })
            },
            ExecEvent::Polled(Ok(Polled::Ended { signal, code })) => ExecView {
                exit_code: crate::fake::container::exit_code_of(signal, code) as i32,
                ..self
            }.to(ExecPhase::Reading, ExecActionView::ReadOutput),
            ExecEvent::Polled(Err(e)) => self.over(
                Err(BackendErrorView::Internal("try_wait: "@ + e@)),
            ),
            ExecEvent::Rested => self.to(ExecPhase::Polling, ExecActionView::Poll),
            ExecEvent::Killed => self.over(Err(BackendErrorView::Internal("exec timeout"@))),
            ExecEvent::Output { stdout, stderr } => self.over(
                Ok(
                    ExecResultView {
                        exit_code: self.exit_code,
                        stdout: stdout@,
                        stderr: stderr@,
                    },
                ),
            ),
            ExecEvent::Waited(Ok(w)) => self.over(
                Ok(
                    ExecResultView {
                        exit_code: crate::fake::container::exit_code_of(w.signal, w.code) as i32,
                        stdout: w.stdout@,
                        stderr: w.stderr@,
                    },
                ),
            ),
            ExecEvent::Waited(Err(e)) => self.over(
                Err(BackendErrorView::Internal("exec_sync wait: "@ + e@)),
            ),
        }
    }
}

/// An error of the backend, with what it is about and what is known of it.
fn internal(about: &str, fault: &str) -> (r: BackendError)
    ensures
        r@ == BackendErrorView::Internal(about@ + fault@),
{
    let mut m = about.to_owned();
    m.append(fault);
    BackendError::Internal(m)
}

impl ExecSync {
    /// Begins to run the command, or says why it cannot be run.
    pub fn begin(
        backend: &FakeBackend,
        id: &ContainerId,
        cmd: &Vec<String>,
        timeout_seconds: i64,
    ) -> (r: Result<(ExecSync, ExecAction), BackendError>)
        ensures
            match ExecView::begun(backend@, id@, cmd.deep_view(), timeout_seconds) {
                Ok(step) => r matches Ok(s) && s.0@ == step.0 && s.1@ == step.1 && s.0@.wf(),
                Err(e) => r matches Err(x) && x@ == e,
            },
    {
        let config = match backend.exec_config(id, cmd, "exec_sync") {
            Ok(config) => config,
            Err(e) => {
                return Err(e);
            },
        };
        assert(cmd.deep_view().len() == cmd@.len());
        let spec = spawn_spec(cmd, config, SpawnStdio::Capture, false);
        let m = ExecSync { timeout_seconds, exit_code: 0, phase: ExecPhase::Spawning };
        Ok((m, ExecAction::Spawn(spec)))
    }

    fn finish(&mut self, r: Result<ExecResult, BackendError>) -> (a: ExecAction)
        ensures
            final(self)@ == (ExecView { phase: ExecPhase::Over, ..old(self)@ }),
            a@ == ExecAction::Done(r)@,
    {
        self.phase = ExecPhase::Over;
        ExecAction::Done(r)
    }

    /// Goes on after an event.
    pub fn next(&mut self, event: ExecEvent) -> (r: ExecAction)
        requires
            old(self)@.wf(),
            old(self)@.awaits(event),
            event.wf(),
        ensures
            final(self)@.wf(),
            (final(self)@, r@) == old(self)@.next(event),
    {
        match (self.phase, event) {
            (ExecPhase::Spawning, ExecEvent::Spawned(r)) => match r {
                Ok(_) => {
                    if self.timeout_seconds > 0 {
                        self.phase = ExecPhase::Polling;
                        ExecAction::Poll
                    } else {
                        self.phase = ExecPhase::Waiting;
                        ExecAction::Wait
                    }
                },
                Err(e) => self.finish(Err(internal("exec_sync spawn: ", e.as_str()))),
            },
            (ExecPhase::Polling, ExecEvent::Polled(r)) => match r {
                Ok(Polled::Running { elapsed_nanos }) => {
                    if elapsed_nanos >= self.timeout_seconds as u128 * NANOS_PER_SECOND {
                        self.phase = ExecPhase::Killing;
                        ExecAction::Kill
                    } else {
                        self.phase = ExecPhase::Resting;
                        ExecAction::Rest { millis: POLL_MILLIS }
                    }
                },
                Ok(Polled::Ended { signal, code }) => {
                    self.exit_code = exit_code_from_status(signal, code);
                    self.phase = ExecPhase::Reading;
                    ExecAction::ReadOutput
                },
                Err(e) => self.finish(Err(internal("try_wait: ", e.as_str()))),
            },
            (ExecPhase::Resting, ExecEvent::Rested) => {
                self.phase = ExecPhase::Polling;
                ExecAction::Poll
            },
            (ExecPhase::Killing, ExecEvent::Killed) => self.finish(
                Err(BackendError::Internal("exec timeout".to_owned())),
            ),
            (ExecPhase::Reading, ExecEvent::Output { stdout, stderr }) => {
                let exit_code: i32 = self.exit_code;
                self.finish(Ok(ExecResult { exit_code, stdout, stderr }))
            },
            (ExecPhase::Waiting, ExecEvent::Waited(r)) => match r {
                Ok(w) => {
                    let exit_code = exit_code_from_status(w.signal, w.code);
                    self.finish(
                        Ok(ExecResult { exit_code, stdout: w.stdout, stderr: w.stderr }),
                    )
                },
                Err(e) => self.finish(Err(internal("exec_sync wait: ", e.as_str()))),
            },
            _ => unreached(),
        }
    }
}

/// A command reports the same end and the same output, whether or not it had a time to keep.
pub proof fn law_time_does_not_change_the_report(
    timed: ExecView,
    untimed: ExecView,
    ended: Waited,
)
    requires
        timed.phase == ExecPhase::Polling,
        untimed.phase == ExecPhase::Waiting,
    ensures
        ({
            let read = timed.next(
                ExecEvent::Polled(Ok(Polled::Ended { signal: ended.signal, code: ended.code })),
            ).0;
            let end = read.next(
                ExecEvent::Output { stdout: ended.stdout, stderr: ended.stderr },
            ).1;
            &&& end == untimed.next(ExecEvent::Waited(Ok(ended))).1
            &&& end is Done && end->Done_0 is Ok
        }),
{
}

/// A command that is still running when its time is over is ended and fails; before that it is
/// left alone.
pub proof fn law_time_is_kept(m: ExecView, elapsed_nanos: u128)
    requires
        m.phase == ExecPhase::Polling,
    ensures
        ({
            let polled = m.next(ExecEvent::Polled(Ok(Polled::Running { elapsed_nanos })));
            if elapsed_nanos >= m.timeout_seconds * NANOS_PER_SECOND {
                &&& polled.1 == ExecActionView::Kill
                &&& polled.0.next(ExecEvent::Killed).1 == ExecActionView::Done(
                    Err(BackendErrorView::Internal("exec timeout"@)),
                )
            } else {
                &&& polled.1 == ExecActionView::Rest { millis: POLL_MILLIS }
                &&& polled.0.next(ExecEvent::Rested) == (m, ExecActionView::Poll)
            }
        }),
{
}

/// Which streams a session has.
#[derive(Clone, Copy, Debug, PartialEq, Eq, Structural)]
pub struct SessionShape {
    pub stdin: bool,
    pub stdout: bool,
    pub stderr: bool,
    /// The controlling side of a terminal.
    pub pty_master: bool,
}

/// A session on a terminal: everything goes over its controlling side.
pub open spec fn terminal_session() -> SessionShape {
    SessionShape { stdin: false, stdout: true, stderr: false, pty_master: true }
}

/// What is being waited for.
#[derive(Clone, Copy, Debug, PartialEq, Eq, Structural)]
pub enum OpenPhase {
    /// That a terminal was opened.
    Opening,
    /// That the command was started.
    Spawning,
    /// That the controlling side of the terminal was doubled.
    Doubling,
    /// Nothing more.
    Over,
}

/// A session with a command being opened.
#[derive(Debug)]
pub struct OpenExec {
    config: ContainerConfig,
    cmd: Vec<String>,
    tty: bool,
    stdin: bool,
    phase: OpenPhase,
}

/// Where an [`OpenExec`] stands.
#[verifier::ext_equal]
pub struct OpenView {
    /// The configuration of the container.
    pub config: ContainerConfigView,
    pub cmd: Seq<Seq<char>>,
    /// Whether the command gets a terminal.
    pub tty: bool,
    /// Whether it can be written to, if it does not.
    pub stdin: bool,
    pub phase: OpenPhase,
}

impl View for OpenExec {
    type V = OpenView;

    closed spec fn view(&self) -> OpenView {
        OpenView {
            config: self.config@,
            cmd: self.cmd.deep_view(),
            tty: self.tty,
            stdin: self.stdin,
            phase: self.phase,
        }
    }
}

/// What is to be done next.
#[derive(Debug)]
pub enum OpenAction {
    OpenTerminal,
    Spawn(SpawnSpec),
    /// Double the controlling side of the terminal, to read from it.
    DoubleMaster,
    Done(Result<SessionShape, BackendError>),
}

/// What an [`OpenAction`] asks for.
#[verifier::ext_equal]
pub enum OpenActionView {
    OpenTerminal,
    Spawn(SpawnView),
    DoubleMaster,
    Done(Result<SessionShape, BackendErrorView>),
}

impl View for OpenAction {
    type V = OpenActionView;

    open spec fn view(&self) -> OpenActionView {
        match *self {
            OpenAction::OpenTerminal => OpenActionView::OpenTerminal,
            OpenAction::Spawn(spec) => OpenActionView::Spawn(spec@),
            OpenAction::DoubleMaster => OpenActionView::DoubleMaster,
            OpenAction::Done(Ok(s)) => OpenActionView::Done(Ok(s)),
            OpenAction::Done(Err(e)) => OpenActionView::Done(Err(e@)),
        }
    }
}

/// What came of it.
#[derive(Debug)]
pub enum OpenEvent {
    TerminalOpened(Result<(), TerminalFault>),
    Spawned(Result<(), String>),
    MasterDoubled(Result<(), String>),
}

impl OpenView {
    /// There is a command to run.
    pub open spec fn wf(self) -> bool {
        self.cmd.len() > 0
    }

    /// The events that answer the pending action.
    pub open spec fn awaits(self, event: OpenEvent) -> bool {
        match self.phase {
            OpenPhase::Opening => event is TerminalOpened,
            OpenPhase::Spawning => event is Spawned,
            OpenPhase::Doubling => event is MasterDoubled,
            OpenPhase::Over => false,
        }
    }

    /// How opening a session begins, or why it does not.
    pub open spec fn begun(
        b: BackendView,
        id: Seq<char>,
        cmd: Seq<Seq<char>>,
        tty: bool,
        stdin: bool,
    ) -> Result<(OpenView, OpenActionView), BackendErrorView> {
        match exec_refusal(b, id, cmd, "open_exec"@) {
            Some(e) => Err(e),
            None => {
                let m = OpenView {
                    config: b.containers[id].config,
                    cmd,
                    tty,
                    stdin,
                    phase: OpenPhase::Opening,
                };
                if tty {
                    Ok((m, OpenActionView::OpenTerminal))
                } else {
                    Ok(m.spawning())
                }
            },
        }
    }

    /// On to the phase, with the action pending.
    pub open spec fn to(self, phase: OpenPhase, action: OpenActionView) -> (
        OpenView,
        OpenActionView,
    ) {
        (OpenView { phase, ..self }, action)
    }

    /// The command is to be started, on a terminal in a session of its own, or on pipes.
    pub open spec fn spawning(self) -> (OpenView, OpenActionView) {
        let stdio = if self.tty {
            SpawnStdio::Terminal
        } else {
            SpawnStdio::Pipes { stdin: self.stdin }
        };
        self.to(
            OpenPhase::Spawning,
            OpenActionView::Spawn(
                crate::fake::spawn::spawn_of(self.cmd, self.config, stdio, self.tty),
            ),
        )
    }

    /// Over, with this outcome.
    pub open spec fn over(self, r: Result<SessionShape, BackendErrorView>) -> (
        OpenView,
        OpenActionView,
    ) {
        self.to(OpenPhase::Over, OpenActionView::Done(r))
    }

    /// How it goes on after an event that it awaits.
    pub open spec fn next(self, event: OpenEvent) -> (OpenView, OpenActionView) {
        match event {
            OpenEvent::TerminalOpened(Ok(_)) => self.spawning(),
            OpenEvent::TerminalOpened(Err(f)) => self.over(
                Err(crate::fake::start::terminal_fault(f)),
            ),
            OpenEvent::Spawned(Ok(_)) => if self.tty {
                self.to(OpenPhase::Doubling, OpenActionView::DoubleMaster)
            } else {
                self.over(
                    Ok(
                        SessionShape {
                            stdin: self.stdin,
                            stdout: true,
                            stderr: true,
                            pty_master: false,
                        },
                    ),
                )
            },
            OpenEvent::Spawned(Err(e)) => self.over(
                Err(BackendErrorView::Internal("open_exec spawn: "@ + e@)),
            ),
            OpenEvent::MasterDoubled(Ok(_)) => self.over(Ok(terminal_session())),
            OpenEvent::MasterDoubled(Err(e)) => self.over(Err(BackendErrorView::Io(e@))),
        }
    }
}

impl OpenExec {
    /// Begins to open a session with the command, or says why it cannot be opened.
    pub fn begin(
        backend: &FakeBackend,
        id: &ContainerId,
        cmd: &Vec<String>,
        tty: bool,
        stdin: bool,
    ) -> (r: Result<(OpenExec, OpenAction), BackendError>)
        ensures
            match OpenView::begun(backend@, id@, cmd.deep_view(), tty, stdin) {
                Ok(step) => r matches Ok(s) && s.0@ == step.0 && s.1@ == step.1 && s.0@.wf(),
                Err(e) => r matches Err(x) && x@ == e,
            },
    {
        let config = match backend.exec_config(id, cmd, "open_exec") {
            Ok(config) => config.clone(),
            Err(e) => {
                return Err(e);
            },
        };
        let mut m = OpenExec {
            config,
            cmd: clone_texts(cmd),
            tty,
            stdin,
            phase: OpenPhase::Opening,
        };
        if tty {
            Ok((m, OpenAction::OpenTerminal))
        } else {
            let a = m.spawn();
            Ok((m, a))
        }
    }

    fn spawn(&mut self) -> (a: OpenAction)
        requires
            old(self)@.wf(),
        ensures
            (final(self)@, a@) == old(self)@.spawning(),
    {
        let stdio = if self.tty {
            SpawnStdio::Terminal
        } else {
            SpawnStdio::Pipes { stdin: self.stdin }
        };
        assert(self.cmd.deep_view().len() == self.cmd@.len());
        self.phase = OpenPhase::Spawning;
        OpenAction::Spawn(spawn_spec(&self.cmd, &self.config, stdio, self.tty))
    }

    /// Goes on after an event.
    pub fn next(&mut self, event: OpenEvent) -> (r: OpenAction)
        requires
            old(self)@.wf(),
            old(self)@.awaits(event),
        ensures
            final(self)@.wf(),
            (final(self)@, r@) == old(self)@.next(event),
    {
        match (self.phase, event) {
            (OpenPhase::Opening, OpenEvent::TerminalOpened(r)) => match r {
                Ok(_) => self.spawn(),
                Err(f) => {
                    self.phase = OpenPhase::Over;
                    OpenAction::Done(Err(terminal_error(f)))
                },
            },
            (OpenPhase::Spawning, OpenEvent::Spawned(r)) => match r {
                Ok(_) => {
                    if self.tty {
                        self.phase = OpenPhase::Doubling;
                        OpenAction::DoubleMaster
                    } else {
                        self.phase = OpenPhase::Over;
                        OpenAction::Done(
                            Ok(
                                SessionShape {
                                    stdin: self.stdin,
                                    stdout: true,
                                    stderr: true,
                                    pty_master: false,
                                },
                            ),
                        )
                    }
                },
                Err(e) => {
                    self.phase = OpenPhase::Over;
                    OpenAction::Done(Err(internal("open_exec spawn: ", e.as_str())))
                },
            },
            (OpenPhase::Doubling, OpenEvent::MasterDoubled(r)) => {
                self.phase = OpenPhase::Over;
                match r {
                    Ok(_) => OpenAction::Done(
                        Ok(
                            SessionShape {
                                stdin: false,
                                stdout: true,
                                stderr: false,
                                pty_master: true,
                            },
                        ),
                    ),
                    Err(e) => OpenAction::Done(Err(BackendError::Io(e))),
                }
            },
            _ => unreached(),
        }
    }
}

/// How a session with a command ended: with its exit code, unless it could not be waited for.
pub open spec fn session_end(report: ExitReport) -> Result<int, BackendErrorView> {
    match report {
        ExitReport::Ended { signal, code } => Ok(
            crate::fake::container::exit_code_of(signal, code),
        ),
        ExitReport::WaitFailed(e) => Err(BackendErrorView::Internal("wait: "@ + e@)),
    }
}

/// How a session with a command ended: with its exit code, unless it could not be waited for.
pub fn wait(report: &ExitReport) -> (r: Result<i32, BackendError>)
    requires
        report.wf(),
    ensures
        match r {
            Ok(code) => session_end(*report) == Ok::<int, BackendErrorView>(code as int),
            Err(e) => session_end(*report) == Err::<int, BackendErrorView>(e@),
        },
{
    match report {
        ExitReport::Ended { signal, code } => Ok(exit_code_from_status(*signal, *code)),
        ExitReport::WaitFailed(e) => Err(internal("wait: ", e.as_str())),
    }
}

/// The exit code reported by a session that is attached to a container: it does not wait for it.
pub const ATTACHED_EXIT_CODE: i32 = 0;

/// The streams of a session attached to a container whose streams are held.
pub open spec fn attached(io: ContainerIo) -> SessionShape {
    if io.pty_master {
        terminal_session()
    } else {
        SessionShape { stdin: io.stdin, stdout: io.stdout, stderr: io.stderr, pty_master: false }
    }
}

/// What attaching to a container comes to. It needs a running container that was started since the
/// state was opened.
pub open spec fn attach_of(b: BackendView, id: Seq<char>) -> Result<SessionShape, BackendErrorView> {
    if !b.containers.dom().contains(id) {
        Err(crate::fake::container::no_container(id))
    } else if b.containers[id].state != ContainerState::Running {
        Err(crate::fake::spawn::not_running(id, b.containers[id].state, "open_attach"@))
    } else if !b.io.dom().contains(id) {
        Err(BackendErrorView::Internal("attach unavailable after restart"@))
    } else {
        Ok(attached(b.io[id]))
    }
}

impl FakeBackend {
    /// Says which of the held streams a session attached to the container has.
    pub fn open_attach(&self, id: &ContainerId) -> (r: Result<SessionShape, BackendError>)
        ensures
            match r {
                Ok(s) => attach_of(self@, id@) == Ok::<SessionShape, BackendErrorView>(s),
                Err(e) => attach_of(self@, id@) == Err::<SessionShape, BackendErrorView>(e@),
            },
    {
        match self.containers.get(id.0.as_str()) {
            None => {
                return Err(no_container_error(id));
            },
            Some(rec) => {
                if rec.state != ContainerState::Running {
                    return Err(not_running_error(id, rec.state, "open_attach"));
                }
            },
        }
        match self.io_table.get(id.0.as_str()) {
            None => Err(BackendError::Internal("attach unavailable after restart".to_owned())),
            Some(io) => {
                if io.pty_master {
                    Ok(
                        SessionShape {
                            stdin: false,
                            stdout: true,
                            stderr: false,
                            pty_master: true,
                        },
                    )
                } else {
                    Ok(
                        SessionShape {
                            stdin: io.stdin,
                            stdout: io.stdout,
                            stderr: io.stderr,
                            pty_master: false,
                        },
                    )
                }
            },
        }
    }
}

/// The streams of a session attached to a container with this configuration, once it was started:
/// on a terminal that and what it shows; on pipes its output and its errors, and its input if it
/// was configured to have one.
pub open spec fn attached_session(config: ContainerConfigView) -> SessionShape {
    if config.tty {
        SessionShape { stdin: false, stdout: true, stderr: false, pty_master: true }
    } else {
        SessionShape { stdin: config.stdin, stdout: true, stderr: true, pty_master: false }
    }
}

/// Once a container has been started, its streams can be attached to, as often as one likes: the
/// session has those that the configuration asks for.
pub proof fn law_started_can_be_attached_to(b0: BackendView, id: Seq<char>, events: Seq<StartEvent>)
    requires
        b0.wf(),
        StartView::begun(b0, id) is Ok,
        (StartRun { step: StartView::begun(b0, id)->Ok_0, disk: b0.disk() }).answered_by(events),
        crate::fake::start::ends_as_asked(b0.containers[id].config, events),
    ensures
        ({
            let end = (StartRun {
                step: StartView::begun(b0, id)->Ok_0,
                disk: b0.disk(),
            }).after_all(events);
            end.step.action == StartActionView::Done(Ok(())) ==> attach_of(end.step.backend, id)
                == Ok::<SessionShape, BackendErrorView>(
                attached_session(b0.containers[id].config),
            )
        }),
{
    crate::fake::start::law_started_is_running(b0, id, events);
    assert(b0.containers[id].id == id);
}

/// The streams of a container are lost with the backend that started it: whoever opens the state
/// again can attach to none.
pub proof fn law_attach_ends_with_the_backend(b: BackendView, id: Seq<char>)
    requires
        b.io == Map::<Seq<char>, ContainerIo>::empty(),
    ensures
        attach_of(b, id) is Err,
        b.is_running(id) ==> attach_of(b, id) == Err::<SessionShape, BackendErrorView>(
            BackendErrorView::Internal("attach unavailable after restart"@),
        ),
{
}

/// A command is run in a container that is running, and only there. It is the command that was
/// asked for, with the directory and the environment of the container; its output is read, and it
/// stays in the backend's own session.
pub proof fn law_exec_runs_the_command_asked_for(
    b: BackendView,
    id: Seq<char>,
    cmd: Seq<Seq<char>>,
    timeout_seconds: i64,
)
    ensures
        ({
            let config = b.containers[id].config;
            match ExecView::begun(b, id, cmd, timeout_seconds) {
                Ok((m, action)) => {
                    &&& b.containers.dom().contains(id)
                    &&& b.containers[id].state == ContainerState::Running
                    &&& cmd.len() > 0
                    &&& m.timeout_seconds == timeout_seconds
                    &&& action matches ExecActionView::Spawn(s) && seq![s.program] + s.args == cmd
                        && s.envs == config.envs && s.stdio == SpawnStdio::Capture
                        && !s.new_session && s.cwd == (if config.working_dir.len() == 0 {
                        None
                    } else {
                        Some(config.working_dir)
                    })
                },
                Err(BackendErrorView::NotFound(_)) => !b.containers.dom().contains(id),
                Err(BackendErrorView::FailedPrecondition(_)) => b.containers.dom().contains(id)
                    && b.containers[id].state != ContainerState::Running,
                Err(BackendErrorView::InvalidArgument(_)) => b.is_running(id) && cmd.len() == 0,
                Err(_) => false,
            }
        }),
{
    if cmd.len() > 0 {
        crate::fake::spawn::law_process_is_started_as_configured(
            cmd,
            b.containers[id].config,
            SpawnStdio::Capture,
            false,
        );
    }
}

/// A command that has no time to keep is waited for; one that has is looked at again and again. One
/// that could not be started fails.
pub proof fn law_time_decides_how_a_command_is_waited_for(m: ExecView, fault: String)
    requires
        m.phase == ExecPhase::Spawning,
    ensures
        ({
            let (w, action) = m.next(ExecEvent::Spawned(Ok(())));
            &&& action == ExecActionView::Wait <==> m.timeout_seconds <= 0
            &&& action == ExecActionView::Poll <==> m.timeout_seconds > 0
            &&& w.awaits(ExecEvent::Waited(Err(fault))) <==> m.timeout_seconds <= 0
            &&& w.awaits(ExecEvent::Polled(Err(fault))) <==> m.timeout_seconds > 0
            &&& w.timeout_seconds == m.timeout_seconds
        }),
        m.next(ExecEvent::Spawned(Err(fault))).1 matches ExecActionView::Done(Err(e))
            && e is Internal,
{
}

/// What a command wrote is reported as it wrote it, output and errors each for themselves, with how
/// it ended: 128 and the signal that ended it, or else its code, or else 0. This holds of a command
/// that is waited for, and of one that is looked at until it has ended.
pub proof fn law_command_reports_what_it_wrote(
    m: ExecView,
    signal: Option<i32>,
    code: Option<i32>,
    stdout: Vec<u8>,
    stderr: Vec<u8>,
)
    requires
        signal matches Some(sig) ==> 128 + sig <= i32::MAX,
    ensures
        ({
            let waited = m.next(ExecEvent::Waited(Ok(Waited { signal, code, stdout, stderr })));
            let polled = m.next(ExecEvent::Polled(Ok(Polled::Ended { signal, code })));
            let read = polled.0.next(ExecEvent::Output { stdout, stderr });
            &&& polled.1 == ExecActionView::ReadOutput
            &&& polled.0.awaits(ExecEvent::Output { stdout, stderr })
            &&& waited.1 matches ExecActionView::Done(Ok(r)) && r.stdout == stdout@ && r.stderr
                == stderr@ && (signal matches Some(sig) ==> r.exit_code == 128 + sig) && (signal
                is None ==> r.exit_code == (if code is Some {
                code->0
            } else {
                0i32
            }))
            &&& read.1 matches ExecActionView::Done(Ok(r)) && r.stdout == stdout@ && r.stderr
                == stderr@ && (signal matches Some(sig) ==> r.exit_code == 128 + sig) && (signal
                is None ==> r.exit_code == (if code is Some {
                code->0
            } else {
                0i32
            }))
            &&& waited.0.phase == ExecPhase::Over && read.0.phase == ExecPhase::Over
        }),
{
}

/// A command is ended no sooner than the whole seconds it was given have gone by, and as soon as it
/// is seen to run after that. A command that cannot be looked at, or waited for, fails.
pub proof fn law_command_has_the_seconds_it_was_given(
    m: ExecView,
    elapsed_nanos: u128,
    fault: String,
)
    requires
        m.timeout_seconds > 0,
    ensures
        ({
            let (w, action) = m.next(ExecEvent::Polled(Ok(Polled::Running { elapsed_nanos })));
            &&& action == ExecActionView::Kill <==> elapsed_nanos >= m.timeout_seconds
                * 1_000_000_000
            &&& action == ExecActionView::Rest { millis: 10 } <==> elapsed_nanos < m.timeout_seconds
                * 1_000_000_000
            &&& w.timeout_seconds == m.timeout_seconds
        }),
        m.next(ExecEvent::Killed).1 matches ExecActionView::Done(Err(e)) && e is Internal,
        m.next(ExecEvent::Polled(Err(fault))).1 matches ExecActionView::Done(Err(e))
            && e is Internal,
        m.next(ExecEvent::Waited(Err(fault))).1 matches ExecActionView::Done(Err(e))
            && e is Internal,
{
}

/// A session is opened with the command that was asked for, with the directory and the environment
/// of the container: on a terminal, of whose session it is the leader, or else on pipes.
pub proof fn law_session_runs_the_command_asked_for(
    b: BackendView,
    id: Seq<char>,
    cmd: Seq<Seq<char>>,
    tty: bool,
    stdin: bool,
)
    ensures
        ({
            let config = b.containers[id].config;
            match OpenView::begun(b, id, cmd, tty, stdin) {
                Ok((m, action)) => {
                    let started = if tty {
                        m.next(OpenEvent::TerminalOpened(Ok(()))).1
                    } else {
                        action
                    };
                    &&& b.containers.dom().contains(id)
                    &&& b.containers[id].state == ContainerState::Running
                    &&& cmd.len() > 0
                    &&& tty ==> action == OpenActionView::OpenTerminal
                    &&& started matches OpenActionView::Spawn(s) && seq![s.program] + s.args == cmd
                        && s.envs == config.envs && s.new_session == tty && s.stdio == (if tty {
                        SpawnStdio::Terminal
                    } else {
                        SpawnStdio::Pipes { stdin }
                    }) && s.cwd == (if config.working_dir.len() == 0 {
                        None
                    } else {
                        Some(config.working_dir)
                    })
                },
                Err(BackendErrorView::NotFound(_)) => !b.containers.dom().contains(id),
                Err(BackendErrorView::FailedPrecondition(_)) => b.containers.dom().contains(id)
                    && b.containers[id].state != ContainerState::Running,
                Err(BackendErrorView::InvalidArgument(_)) => b.is_running(id) && cmd.len() == 0,
                Err(_) => false,
            }
        }),
{
    if cmd.len() > 0 {
        crate::fake::spawn::law_process_is_started_as_configured(
            cmd,
            b.containers[id].config,
            if tty {
                SpawnStdio::Terminal
            } else {
                SpawnStdio::Pipes { stdin }
            },
            tty,
        );
    }
}

/// A session on pipes has output and errors, and input if it was asked for. One on a terminal has the
/// controlling side of the terminal for everything.
pub proof fn law_session_has_the_streams_asked_for(
    b: BackendView,
    id: Seq<char>,
    cmd: Seq<Seq<char>>,
    stdin: bool,
)
    requires
        b.is_running(id),
        cmd.len() > 0,
    ensures
        OpenView::begun(b, id, cmd, false, stdin) matches Ok((m, _)) && (m.next(
            OpenEvent::Spawned(Ok(())),
        ).1 matches OpenActionView::Done(Ok(s)) && s.stdin == stdin && s.stdout && s.stderr
            && !s.pty_master),
        OpenView::begun(b, id, cmd, true, stdin) matches Ok((m, _)) && ({
            let spawning = m.next(OpenEvent::TerminalOpened(Ok(()))).0;
            let doubling = spawning.next(OpenEvent::Spawned(Ok(())));
            &&& doubling.1 == OpenActionView::DoubleMaster
            &&& doubling.0.next(OpenEvent::MasterDoubled(Ok(()))).1 matches OpenActionView::Done(
                Ok(s),
            ) && !s.stdin && s.stdout && !s.stderr && s.pty_master
        }),
{
}

/// A session that cannot be opened says so: there is no terminal, the command cannot be started, or
/// the terminal cannot be read from.
pub proof fn law_session_that_fails_says_so(m: OpenView, fault: String)
    ensures
        m.next(OpenEvent::TerminalOpened(Err(TerminalFault::Open(fault)))).1
            matches OpenActionView::Done(Err(e)) && e is Internal,
        m.next(OpenEvent::TerminalOpened(Err(TerminalFault::Dup(fault)))).1
            == OpenActionView::Done(Err(BackendErrorView::Io(fault@))),
        m.next(OpenEvent::Spawned(Err(fault))).1 matches OpenActionView::Done(Err(e))
            && e is Internal,
        m.next(OpenEvent::MasterDoubled(Err(fault))).1 == OpenActionView::Done(
            Err(BackendErrorView::Io(fault@)),
        ),
{
}

/// A session ends as its command did: with 128 and the signal that ended it, or else with its code.
/// One that could not be waited for has no code.
pub proof fn law_session_ends_as_its_command(
    signal: Option<i32>,
    code: Option<i32>,
    fault: String,
)
    ensures
        signal matches Some(sig) ==> session_end(ExitReport::Ended { signal, code }) == Ok::<
            int,
            BackendErrorView,
        >(128 + sig),
        signal is None ==> session_end(ExitReport::Ended { signal, code }) == Ok::<
            int,
            BackendErrorView,
        >(
            if code is Some {
                code->0 as int
            } else {
                0
            },
        ),
        session_end(ExitReport::WaitFailed(fault)) is Err,
{
}

/// A session attached to a container has the streams that are held of it: its terminal for
/// everything, or else each of its pipes.
pub proof fn law_attached_has_the_streams_held(b: BackendView, id: Seq<char>)
    ensures
        ({
            let io = b.io[id];
            let held = b.is_running(id) && b.io.dom().contains(id);
            &&& attach_of(b, id) is Ok <==> held
            &&& held && io.pty_master ==> (attach_of(b, id) matches Ok(s) && s.pty_master
                && s.stdout && !s.stderr && !s.stdin)
            &&& held && !io.pty_master ==> (attach_of(b, id) matches Ok(s) && !s.pty_master
                && s.stdout == io.stdout && s.stderr == io.stderr && s.stdin == io.stdin)
            &&& attach_of(b, id) matches Err(e) ==> {
                &&& e is NotFound <==> !b.containers.dom().contains(id)
                &&& e is FailedPrecondition <==> b.containers.dom().contains(id) && !b.is_running(
                    id,
                )
                &&& e is Internal <==> b.is_running(id)
            }
        }),
{
}

} // verus!
