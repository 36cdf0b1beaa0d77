//! Exec and attach sessions over a SPDY connection.
//!
//! The client opens the streams and keeps its side open until it has read how the session ended. So
//! a session does not complete when the connection closes, but when the command has ended and all of
//! its output has been passed on, or when the client goes away.

use crate::fake::exec::SessionShape;
use crate::stream::frame::{fin_frame, has_fin, stream_role, Inbound, Outbound, OutboundView, Role};
use crate::stream::token::StreamVerb;
use std::collections::HashMap;
use vstd::prelude::*;

verus! {

broadcast use vstd::std_specs::hash::group_hash_axioms;

/// How long the client has to open its output and error streams.
pub const BARRIER_MILLIS: u64 = 5000;

/// The exit code told of a command that could not be waited for.
pub const UNKNOWN_EXIT_CODE: i32 = -1;

/// A session.
#[derive(Debug)]
pub struct Session {
    attach: bool,
    roles: HashMap<u32, Role>,
    stdout_id: Option<u32>,
    stderr_id: Option<u32>,
    error_id: Option<u32>,
    stdin: bool,
    stdout: bool,
    stderr: bool,
    stderr_asked: bool,
    copying_stdout: bool,
    copying_stderr: bool,
    pty: bool,
    late: bool,
    left: bool,
    abandoned: bool,
    exit_code: Option<i32>,
    over: bool,
}

/// Where a [`Session`] stands.
#[verifier::ext_equal]
pub struct SessionView {
    pub attach: bool,
    /// The streams that the client opened, and what they are for.
    pub roles: Map<u32, Role>,
    /// The streams that the client opened last for output, errors and the outcome.
    pub stdout_id: Option<u32>,
    pub stderr_id: Option<u32>,
    pub error_id: Option<u32>,
    /// Whether the command can be written to.
    pub stdin: bool,
    /// Whether its output and its errors wait for a stream.
    pub stdout: bool,
    pub stderr: bool,
    /// Whether the client asked for the errors, so that it will open a stream for them.
    pub stderr_asked: bool,
    /// Whether its output and its errors are being copied to a stream.
    pub copying_stdout: bool,
    pub copying_stderr: bool,
    /// Whether it is on a terminal.
    pub pty: bool,
    /// Whether the time for opening streams is over.
    pub late: bool,
    /// Whether the client has left.
    pub left: bool,
    /// Whether it left while it was still to be told something that had not happened yet, so that
    /// nothing more is copied for it.
    pub abandoned: bool,
    /// How the command ended, once that is known.
    pub exit_code: Option<i32>,
    /// Whether the session is over.
    pub over: bool,
}

impl View for Session {
    type V = SessionView;

    closed spec fn view(&self) -> SessionView {
        SessionView {
            attach: self.attach,
            roles: self.roles@,
            stdout_id: self.stdout_id,
            stderr_id: self.stderr_id,
            error_id: self.error_id,
            stdin: self.stdin,
            stdout: self.stdout,
            stderr: self.stderr,
            stderr_asked: self.stderr_asked,
            copying_stdout: self.copying_stdout,
            copying_stderr: self.copying_stderr,
            pty: self.pty,
            late: self.late,
            left: self.left,
            abandoned: self.abandoned,
            exit_code: self.exit_code,
            over: self.over,
        }
    }
}

/// What is to be done.
#[derive(Debug)]
pub enum SessionAction {
    /// Send the frame; a connection that breaks shows when it is next read.
    Send(Outbound),
    /// Copy the command's output to the stream until it ends, and say so then.
    PumpStdout { stream_id: u32 },
    /// Copy the command's errors to the stream until they end, and say so then.
    PumpStderr { stream_id: u32 },
    /// Write to the command.
    Input(Vec<u8>),
    /// Close the command's input.
    CloseInput,
    /// Set the size of the terminal, if the bytes tell one.
    Resize(Vec<u8>),
    /// Say so when the time is over.
    Arm { millis: u64 },
    /// Say so when the command has ended.
    Reap,
    /// Send how the command ended as the last frame of the stream.
    Status { stream_id: u32, exit_code: i32 },
    /// Stop reading and drop everything.
    Finish,
}

/// What a [`SessionAction`] asks for.
#[verifier::ext_equal]
pub enum SessionActionView {
    Send(OutboundView),
    PumpStdout { stream_id: u32 },
    PumpStderr { stream_id: u32 },
    Input(Seq<u8>),
    CloseInput,
    Resize(Seq<u8>),
    Arm { millis: u64 },
    Reap,
    Status { stream_id: u32, exit_code: i32 },
    Finish,
}

impl View for SessionAction {
    type V = SessionActionView;

    open spec fn view(&self) -> SessionActionView {
        match *self {
            SessionAction::Send(f) => SessionActionView::Send(f@),
            SessionAction::PumpStdout { stream_id } => SessionActionView::PumpStdout { stream_id },
            SessionAction::PumpStderr { stream_id } => SessionActionView::PumpStderr { stream_id },
            SessionAction::Input(data) => SessionActionView::Input(data@),
            SessionAction::CloseInput => SessionActionView::CloseInput,
            SessionAction::Resize(data) => SessionActionView::Resize(data@),
            SessionAction::Arm { millis } => SessionActionView::Arm { millis },
            SessionAction::Reap => SessionActionView::Reap,
            SessionAction::Status { stream_id, exit_code } => SessionActionView::Status {
                stream_id,
                exit_code,
            },
            SessionAction::Finish => SessionActionView::Finish,
        }
    }
}

impl DeepView for SessionAction {
    type V = SessionActionView;

    open spec fn deep_view(&self) -> SessionActionView {
        self@
    }
}

/// What happens to a session.
#[derive(Debug)]
pub enum SessionEvent {
    /// A frame of the client, or its leaving.
    Client(Inbound),
    /// The time for opening streams is over.
    TimeOver,
    /// The command has ended, or could not be waited for.
    Reaped(Option<i32>),
    /// The command's output has been copied to its end.
    StdoutEnded,
    /// The command's errors have been copied to their end.
    StderrEnded,
}

/// The exit code that is told.
pub open spec fn told_code(code: Option<i32>) -> i32 {
    match code {
        Some(c) => c,
        None => UNKNOWN_EXIT_CODE,
    }
}

impl SessionView {
    /// Whether the client's streams are there, or late.
    pub open spec fn ready(self) -> bool {
        self.late || self.stdout_id is Some && self.error_id is Some
    }

    /// Whether no output is under way to the client, nor waits for a stream that is still to come: one
    /// for errors is, if the client asked for them.
    pub open spec fn drained(self) -> bool {
        &&& !self.copying_stdout
        &&& !self.copying_stderr
        &&& self.stderr && self.stderr_asked ==> self.late || self.left
    }

    /// Whether there is nothing more to wait for. Who is attached waits for the output alone; who
    /// ran a command also waits for its end.
    pub open spec fn done(self) -> bool {
        &&& self.abandoned || self.ready() && self.drained()
        &&& self.attach || self.exit_code is Some
    }

    /// The session is over as soon as there is nothing more to wait for.
    pub open spec fn wf(self) -> bool {
        &&& self.done() ==> self.over
        &&& self.abandoned ==> self.left
        &&& self.copying_stdout ==> self.stdout_id is Some && !self.stdout
        &&& self.copying_stderr ==> self.stderr_id is Some && !self.stderr
    }

    /// A session that begins. Without a command there is nothing to do.
    pub open spec fn begun(attach: bool, session: Option<SessionShape>, stderr_asked: bool) -> (
        SessionView,
        Seq<SessionActionView>,
    ) {
        let shape = match session {
            Some(s) => s,
            None => SessionShape { stdin: false, stdout: false, stderr: false, pty_master: false },
        };
        let v = SessionView {
            attach,
            roles: Map::empty(),
            stdout_id: None,
            stderr_id: None,
            error_id: None,
            stdin: shape.stdin,
            stdout: shape.stdout,
            stderr: shape.stderr,
            stderr_asked,
            copying_stdout: false,
            copying_stderr: false,
            pty: shape.pty_master,
            late: false,
            left: false,
            abandoned: false,
            exit_code: None,
            over: session is None,
        };
        (
            v,
            if session is Some {
                seq![SessionActionView::Arm { millis: BARRIER_MILLIS }, SessionActionView::Reap]
            } else {
                seq![SessionActionView::Finish]
            },
        )
    }

    /// How the session goes on after an event: what follows from it, and then its end if there is
    /// nothing more to wait for.
    pub open spec fn on(self, event: SessionEvent) -> (SessionView, Seq<SessionActionView>) {
        if self.over {
            (self, Seq::empty())
        } else {
            let (v, actions) = self.noted(event);
            (v.settled().0, actions + v.settled().1)
        }
    }

    /// What follows from an event.
    pub open spec fn noted(self, event: SessionEvent) -> (SessionView, Seq<SessionActionView>) {
        match event {
            SessionEvent::Client(f) => if self.left {
                (self, Seq::empty())
            } else {
                self.on_frame(f)
            },
            SessionEvent::TimeOver => (SessionView { late: true, ..self }, Seq::empty()),
            SessionEvent::Reaped(code) => (
                SessionView { exit_code: Some(told_code(code)), ..self },
                Seq::empty(),
            ),
            SessionEvent::StdoutEnded => (
                SessionView { copying_stdout: false, ..self },
                Seq::empty(),
            ),
            SessionEvent::StderrEnded => (
                SessionView { copying_stderr: false, ..self },
                Seq::empty(),
            ),
        }
    }

    /// The end of the session, if there is nothing more to wait for.
    pub open spec fn settled(self) -> (SessionView, Seq<SessionActionView>) {
        if self.done() {
            self.finished(self.outcome())
        } else {
            (self, Seq::empty())
        }
    }

    /// The exit code that is told: to be attached is to succeed, a command succeeds or fails.
    pub open spec fn outcome(self) -> i32 {
        if self.attach {
            0
        } else {
            self.exit_code->0
        }
    }

    /// The output streams that the client opened are closed, and last the outcome is told.
    pub open spec fn finished(self, exit_code: i32) -> (SessionView, Seq<SessionActionView>) {
        (
            SessionView { over: true, ..self },
            closing(self.stdout_id) + closing(self.stderr_id) + outcome_told(
                self.error_id,
                exit_code,
            ) + seq![SessionActionView::Finish],
        )
    }

    /// The role of the stream, if the client opened it.
    pub open spec fn role(self, stream_id: u32) -> Role {
        if self.roles.dom().contains(stream_id) {
            self.roles[stream_id]
        } else {
            Role::Other
        }
    }

    /// How the session goes on after a frame.
    pub open spec fn on_frame(self, frame: Inbound) -> (SessionView, Seq<SessionActionView>) {
        match frame {
            Inbound::SynStream { stream_id, stream_type, port: _, request_id: _ } => self.opened(
                stream_id,
                crate::stream::frame::role_of(stream_type),
            ),
            Inbound::Data { stream_id, flags, data } => self.received(stream_id, flags, data@),
            Inbound::Ping { id } => (
                self,
                seq![SessionActionView::Send(OutboundView::Ping { id })],
            ),
            Inbound::RstStream { stream_id: _, status: _ } => self.client_left(),
            Inbound::GoAway => self.client_left(),
            Inbound::Ignored => (self, Seq::empty()),
            Inbound::Closed => self.client_left(),
        }
    }

    /// With the stream open in its role. Output that waited for it is copied to it.
    pub open spec fn with_stream(self, stream_id: u32, role: Role) -> SessionView {
        SessionView {
            roles: self.roles.insert(stream_id, role),
            stdout_id: if role == Role::Stdout {
                Some(stream_id)
            } else {
                self.stdout_id
            },
            stderr_id: if role == Role::Stderr {
                Some(stream_id)
            } else {
                self.stderr_id
            },
            error_id: if role == Role::Error {
                Some(stream_id)
            } else {
                self.error_id
            },
            stdout: self.stdout && role != Role::Stdout,
            stderr: self.stderr && role != Role::Stderr,
            copying_stdout: self.copying_stdout || self.stdout && role == Role::Stdout,
            copying_stderr: self.copying_stderr || self.stderr && role == Role::Stderr,
            ..self
        }
    }

    /// The client opened a stream: it is accepted, and if output waits for it the copying begins.
    pub open spec fn opened(self, stream_id: u32, role: Role) -> (
        SessionView,
        Seq<SessionActionView>,
    ) {
        let reply = seq![SessionActionView::Send(OutboundView::SynReply { stream_id })];
        (self.with_stream(stream_id, role), reply + self.pump(stream_id, role))
    }

    /// The copying that begins when a stream is opened.
    pub open spec fn pump(self, stream_id: u32, role: Role) -> Seq<SessionActionView> {
        if role == Role::Stdout && self.stdout {
            seq![SessionActionView::PumpStdout { stream_id }]
        } else if role == Role::Stderr && self.stderr {
            seq![SessionActionView::PumpStderr { stream_id }]
        } else {
            Seq::empty()
        }
    }

    /// The client sent data: input for the command, or a size for its terminal.
    pub open spec fn received(self, stream_id: u32, flags: u8, data: Seq<u8>) -> (
        SessionView,
        Seq<SessionActionView>,
    ) {
        let role = self.role(stream_id);
        if role == Role::Stdin && self.stdin {
            if crate::stream::frame::is_fin(flags) {
                (
                    SessionView { stdin: false, ..self },
                    seq![SessionActionView::Input(data), SessionActionView::CloseInput],
                )
            } else {
                (self, seq![SessionActionView::Input(data)])
            }
        } else if role == Role::Resize && self.pty {
            (self, seq![SessionActionView::Resize(data)])
        } else {
            (self, Seq::empty())
        }
    }

    /// The client has left. A command that has ended still has its output copied to the end; who is
    /// attached, or runs a command that has not ended, waits for no output any more.
    pub open spec fn client_left(self) -> (SessionView, Seq<SessionActionView>) {
        (
            SessionView {
                left: true,
                abandoned: self.attach || self.exit_code is None || !self.ready(),
                ..self
            },
            Seq::empty(),
        )
    }
}

/// The stream is closed, if the client opened one.
pub open spec fn closing(stream_id: Option<u32>) -> Seq<SessionActionView> {
    match stream_id {
        Some(id) => seq![SessionActionView::Send(crate::stream::frame::fin(id))],
        None => Seq::empty(),
    }
}

/// The outcome is told, if the client opened a stream for it.
pub open spec fn outcome_told(stream_id: Option<u32>, exit_code: i32) -> Seq<SessionActionView> {
    match stream_id {
        Some(id) => seq![SessionActionView::Status { stream_id: id, exit_code }],
        None => Seq::empty(),
    }
}

impl Session {
    /// Begins a session of the verb with the command, if that could be had. `stderr_asked` says
    /// whether the client asked for the command's errors.
    pub fn begin(verb: &StreamVerb, session: Option<SessionShape>, stderr_asked: bool) -> (r: (
        Session,
        Vec<SessionAction>,
    ))
        ensures
            r.0@ == SessionView::begun(*verb is Attach, session, stderr_asked).0,
            r.1.deep_view() == SessionView::begun(*verb is Attach, session, stderr_asked).1,
            r.0@.wf(),
    {
        let attach = match verb {
            StreamVerb::Attach => true,
            _ => false,
        };
        let mut actions: Vec<SessionAction> = Vec::new();
        let (shape, over) = match session {
            Some(s) => {
                actions.push(SessionAction::Arm { millis: BARRIER_MILLIS });
                actions.push(SessionAction::Reap);
                (s, false)
            },
            None => {
                actions.push(SessionAction::Finish);
                (
                    SessionShape { stdin: false, stdout: false, stderr: false, pty_master: false },
                    true,
                )
            },
        };
        let s = Session {
            attach,
            roles: HashMap::new(),
            stdout_id: None,
            stderr_id: None,
            error_id: None,
            stdin: shape.stdin,
            stdout: shape.stdout,
            stderr: shape.stderr,
            stderr_asked,
            copying_stdout: false,
            copying_stderr: false,
            pty: shape.pty_master,
            late: false,
            left: false,
            abandoned: false,
            exit_code: None,
            over,
        };
        assert(actions.deep_view() =~= SessionView::begun(*verb is Attach, session, stderr_asked).1);
        (s, actions)
    }

    /// Goes on after an event.
    pub fn on(&mut self, event: SessionEvent) -> (r: Vec<SessionAction>)
        ensures
            final(self)@ == old(self)@.on(event).0,
            r.deep_view() == old(self)@.on(event).1,
            old(self)@.wf() ==> final(self)@.wf(),
    {
        let mut actions: Vec<SessionAction> = Vec::new();
        assert(actions.deep_view() =~= Seq::empty());
        if self.over {
            return actions;
        }
        match event {
            SessionEvent::Client(f) => {
                if !self.left {
                    self.frame(f, &mut actions);
                }
            },
            SessionEvent::TimeOver => {
                self.late = true;
            },
            SessionEvent::Reaped(code) => {
                let code: i32 = match code {
                    Some(c) => c,
                    None => UNKNOWN_EXIT_CODE,
                };
                self.exit_code = Some(code);
            },
            SessionEvent::StdoutEnded => {
                self.copying_stdout = false;
            },
            SessionEvent::StderrEnded => {
                self.copying_stderr = false;
            },
        }
        assert(self@ == old(self)@.noted(event).0);
        assert(actions.deep_view() =~= old(self)@.noted(event).1);
        self.settle(&mut actions);
        actions
    }

    fn is_ready(&self) -> (r: bool)
        ensures
            r == self@.ready(),
    {
        self.late || (self.stdout_id.is_some() && self.error_id.is_some())
    }

    fn is_drained(&self) -> (r: bool)
        ensures
            r == self@.drained(),
    {
        !self.copying_stdout && !self.copying_stderr && (!(self.stderr && self.stderr_asked)
            || self.late || self.left)
    }

    fn settle(&mut self, actions: &mut Vec<SessionAction>)
        ensures
            final(self)@ == old(self)@.settled().0,
            final(actions).deep_view() == old(actions).deep_view() + old(self)@.settled().1,
    {
        if self.abandoned || (self.is_ready() && self.is_drained()) {
            if self.attach {
                self.finish(0, actions);
                return;
            }
            if let Some(code) = self.exit_code {
                self.finish(code, actions);
                return;
            }
        }
        assert(actions.deep_view() =~= old(actions).deep_view() + old(self)@.settled().1);
    }

    fn finish(&mut self, exit_code: i32, actions: &mut Vec<SessionAction>)
        ensures
            final(self)@ == old(self)@.finished(exit_code).0,
            final(actions).deep_view() == old(actions).deep_view() + old(self)@.finished(
                exit_code,
            ).1,
    {
        close(self.stdout_id, actions);
        close(self.stderr_id, actions);
        let ghost before = actions.deep_view();
        if let Some(stream_id) = self.error_id {
            actions.push(SessionAction::Status { stream_id, exit_code });
        }
        assert(actions.deep_view() =~= before + outcome_told(self.error_id, exit_code));
        let ghost told = actions.deep_view();
        actions.push(SessionAction::Finish);
        assert(actions.deep_view() =~= told + seq![SessionActionView::Finish]);
        self.over = true;
        assert(actions.deep_view() =~= old(actions).deep_view() + old(self)@.finished(
            exit_code,
        ).1);
    }

    fn frame(&mut self, frame: Inbound, actions: &mut Vec<SessionAction>)
        ensures
            final(self)@ == old(self)@.on_frame(frame).0,
            final(actions).deep_view() == old(actions).deep_view() + old(self)@.on_frame(frame).1,
    {
        match frame {
            Inbound::SynStream { stream_id, stream_type, port: _, request_id: _ } => {
                let role = stream_role(&stream_type);
                self.open(stream_id, role, actions);
            },
            Inbound::Data { stream_id, flags, data } => {
                self.receive(stream_id, flags, data, actions);
            },
            Inbound::Ping { id } => {
                actions.push(SessionAction::Send(Outbound::Ping { id }));
            },
            Inbound::RstStream { stream_id: _, status: _ } => {
                self.leave();
            },
            Inbound::GoAway => {
                self.leave();
            },
            Inbound::Ignored => {},
            Inbound::Closed => {
                self.leave();
            },
        }
        assert(actions.deep_view() =~= old(actions).deep_view() + old(self)@.on_frame(frame).1);
    }

    fn open(&mut self, stream_id: u32, role: Role, actions: &mut Vec<SessionAction>)
        ensures
            final(self)@ == old(self)@.opened(stream_id, role).0,
            final(actions).deep_view() == old(actions).deep_view() + old(self)@.opened(
                stream_id,
                role,
            ).1,
    {
        actions.push(SessionAction::Send(Outbound::SynReply { stream_id }));
        let ghost replied = actions.deep_view();
        assert(replied =~= old(actions).deep_view() + seq![
            SessionActionView::Send(OutboundView::SynReply { stream_id }),
        ]);
        self.attach_stream(stream_id, role, actions);
        assert(actions.deep_view() =~= old(actions).deep_view() + old(self)@.opened(
            stream_id,
            role,
        ).1);
    }

    fn attach_stream(&mut self, stream_id: u32, role: Role, actions: &mut Vec<SessionAction>)
        ensures
            final(self)@ == old(self)@.with_stream(stream_id, role),
            final(actions).deep_view() == old(actions).deep_view() + old(self)@.pump(
                stream_id,
                role,
            ),
    {
        self.begin_copying(stream_id, role, actions);
        self.take_role(stream_id, role);
        self.roles.insert(stream_id, role);
    }

    fn take_role(&mut self, stream_id: u32, role: Role)
        ensures
            final(self)@ == (SessionView {
                roles: old(self)@.roles,
                ..old(self)@.with_stream(stream_id, role)
            }),
    {
        match role {
            Role::Stdout => {
                self.stdout_id = Some(stream_id);
                self.copying_stdout = self.copying_stdout || self.stdout;
                self.stdout = false;
            },
            Role::Stderr => {
                self.stderr_id = Some(stream_id);
                self.copying_stderr = self.copying_stderr || self.stderr;
                self.stderr = false;
            },
            Role::Error => {
                self.error_id = Some(stream_id);
            },
            _ => {},
        }
    }

    fn begin_copying(&self, stream_id: u32, role: Role, actions: &mut Vec<SessionAction>)
        ensures
            final(actions).deep_view() == old(actions).deep_view() + self@.pump(stream_id, role),
    {
        match role {
            Role::Stdout => {
                if self.stdout {
                    actions.push(SessionAction::PumpStdout { stream_id });
                }
            },
            Role::Stderr => {
                if self.stderr {
                    actions.push(SessionAction::PumpStderr { stream_id });
                }
            },
            _ => {},
        }
        assert(actions.deep_view() =~= old(actions).deep_view() + self@.pump(stream_id, role));
    }

    fn receive(&mut self, stream_id: u32, flags: u8, data: Vec<u8>, actions: &mut Vec<SessionAction>)
        ensures
            final(self)@ == old(self)@.received(stream_id, flags, data@).0,
            final(actions).deep_view() == old(actions).deep_view() + old(self)@.received(
                stream_id,
                flags,
                data@,
            ).1,
    {
        let ghost sent = data@;
        let role = match self.roles.get(&stream_id) {
            Some(role) => *role,
            None => Role::Other,
        };
        match role {
            Role::Stdin => {
                if self.stdin {
                    actions.push(SessionAction::Input(data));
                    if has_fin(flags) {
                        self.stdin = false;
                        actions.push(SessionAction::CloseInput);
                    }
                }
            },
            Role::Resize => {
                if self.pty {
                    actions.push(SessionAction::Resize(data));
                }
            },
            _ => {},
        }
        assert(actions.deep_view() =~= old(actions).deep_view() + old(self)@.received(
            stream_id,
            flags,
            sent,
        ).1);
    }

    fn leave(&mut self)
        ensures
            final(self)@ == old(self)@.client_left().0,
    {
        self.left = true;
        self.abandoned = self.attach || self.exit_code.is_none() || !self.is_ready();
    }
}

fn close(stream_id: Option<u32>, actions: &mut Vec<SessionAction>)
    ensures
        final(actions).deep_view() == old(actions).deep_view() + closing(stream_id),
{
    if let Some(id) = stream_id {
        actions.push(SessionAction::Send(fin_frame(id)));
    }
    assert(actions.deep_view() =~= old(actions).deep_view() + closing(stream_id));
}

impl SessionView {
    /// Where the session stands after the events.
    pub open spec fn after(self, events: Seq<SessionEvent>) -> SessionView
        decreases events.len(),
    {
        if events.len() == 0 {
            self
        } else {
            self.on(events[0]).0.after(events.drop_first())
        }
    }

    /// All that is done in the course of the events.
    pub open spec fn actions(self, events: Seq<SessionEvent>) -> Seq<SessionActionView>
        decreases events.len(),
    {
        if events.len() == 0 {
            Seq::empty()
        } else {
            self.on(events[0]).1 + self.on(events[0]).0.actions(events.drop_first())
        }
    }
}

/// Whether the outcome is told at most once and nothing follows but the end of the session, and
/// nothing at all follows that.
pub open spec fn outcome_comes_last(actions: Seq<SessionActionView>) -> bool {
    &&& forall|i: int|
        0 <= i < actions.len() && (#[trigger] actions[i]) is Finish ==> i == actions.len() - 1
    &&& forall|i: int|
        0 <= i < actions.len() && (#[trigger] actions[i]) is Status ==> i == actions.len() - 2
            && actions[i + 1] is Finish
}

/// Whatever happens, the outcome is the last thing that a client is told: no frame follows, and
/// the session is over.
pub proof fn law_outcome_is_told_last(v: SessionView, events: Seq<SessionEvent>)
    ensures
        outcome_comes_last(v.actions(events)),
        forall|i: int|
            0 <= i < v.actions(events).len() && (#[trigger] v.actions(events)[i]) is Status
                ==> v.after(events).over,
    decreases events.len(),
{
    if events.len() > 0 {
        let (next, first) = v.on(events[0]);
        let rest = next.actions(events.drop_first());
        law_outcome_is_told_last(next, events.drop_first());
        lemma_step(v, events[0]);
        if next.over {
            lemma_over_is_over(next, events.drop_first());
            assert(first + rest =~= first);
        } else {
            assert forall|i: int| 0 <= i < (first + rest).len() && #[trigger] (first
                + rest)[i] is Finish implies i == (first + rest).len() - 1 by {
                assert(i >= first.len());
                assert(rest[i - first.len()] is Finish);
            }
            assert forall|i: int| 0 <= i < (first + rest).len() && #[trigger] (first
                + rest)[i] is Status implies i == (first + rest).len() - 2 && (first + rest)[i
                + 1] is Finish && v.after(events).over by {
                assert(i >= first.len());
                assert(rest[i - first.len()] is Status);
                assert(rest[i - first.len() + 1] is Finish);
            }
        }
    }
}

proof fn lemma_step(v: SessionView, event: SessionEvent)
    ensures
        outcome_comes_last(v.on(event).1),
        !v.on(event).0.over ==> forall|i: int|
            0 <= i < v.on(event).1.len() ==> !((#[trigger] v.on(event).1[i]) is Status)
                && !(v.on(event).1[i] is Finish),
{
    if !v.over {
        let (w, a) = v.noted(event);
        let b = w.settled().1;
        lemma_noted(v, event);
        if w.done() {
            lemma_finished(w, w.outcome());
        }
        assert forall|i: int| 0 <= i < (a + b).len() && (#[trigger] (a + b)[i]) is Finish implies i
            == (a + b).len() - 1 by {
            assert(i >= a.len());
            assert(b[i - a.len()] is Finish);
        }
        assert forall|i: int| 0 <= i < (a + b).len() && (#[trigger] (a + b)[i]) is Status implies i
            == (a + b).len() - 2 && (a + b)[i + 1] is Finish by {
            assert(i >= a.len());
            assert(b[i - a.len()] is Status);
            assert(b[i - a.len() + 1] is Finish);
        }
    }
}

/// What follows from an event is never the outcome.
proof fn lemma_noted(v: SessionView, event: SessionEvent)
    ensures
        forall|i: int|
            0 <= i < v.noted(event).1.len() ==> !((#[trigger] v.noted(event).1[i]) is Status)
                && !(v.noted(event).1[i] is Finish),
        v.noted(event).0.over == v.over,
        v.noted(event).0.attach == v.attach,
{
}

proof fn lemma_finished(v: SessionView, code: i32)
    ensures
        outcome_comes_last(v.finished(code).1),
{
    let a = closing(v.stdout_id);
    let b = closing(v.stderr_id);
    let c = outcome_told(v.error_id, code);
    let all = a + b + c + seq![SessionActionView::Finish];
    assert forall|i: int| 0 <= i < all.len() && (#[trigger] all[i]) is Finish implies i == all.len()
        - 1 by {
        if i < all.len() - 1 {
            assert(all[i] == (a + b + c)[i]);
        }
    }
    assert forall|i: int| 0 <= i < all.len() && (#[trigger] all[i]) is Status implies i == all.len()
        - 2 && all[i + 1] is Finish by {
        if i < a.len() + b.len() {
            assert(all[i] == (a + b)[i]);
        }
    }
}

/// Nothing is done in a session that is over.
proof fn lemma_over_is_over(v: SessionView, events: Seq<SessionEvent>)
    requires
        v.over,
    ensures
        v.actions(events) == Seq::<SessionActionView>::empty(),
        v.after(events) == v,
    decreases events.len(),
{
    if events.len() > 0 {
        lemma_over_is_over(v, events.drop_first());
    }
}

/// Who attached is told success; who ran a command is told how it ended. Both are told on the error
/// stream.
pub proof fn law_outcome_is_the_commands(v: SessionView, event: SessionEvent, i: int)
    requires
        0 <= i < v.on(event).1.len(),
        v.on(event).1[i] is Status,
    ensures
        v.attach ==> v.on(event).1[i]->exit_code == 0,
        !v.attach ==> v.on(event).0.exit_code == Some(v.on(event).1[i]->exit_code),
        v.on(event).0.error_id == Some(v.on(event).1[i]->Status_stream_id),
{
    let (w, noted) = v.noted(event);
    lemma_noted(v, event);
    assert(i >= noted.len());
    let all = w.settled().1;
    let k = i - noted.len();
    assert(all[k] is Status);
    let a = closing(w.stdout_id) + closing(w.stderr_id);
    let c = outcome_told(w.error_id, w.outcome());
    assert(all == a + c + seq![SessionActionView::Finish]);
    if k < a.len() {
        assert(all[k] == a[k]);
    } else {
        assert(all[k] == c[k - a.len()]);
    }
}

/// When the outcome is told, the streams that the client opened for output have just been closed.
pub proof fn law_output_is_closed_before_the_outcome(v: SessionView, event: SessionEvent, i: int)
    requires
        0 <= i < v.on(event).1.len(),
        v.on(event).1[i] is Status,
    ensures
        v.on(event).0.stdout_id matches Some(id) ==> exists|k: int|
            0 <= k < i && #[trigger] v.on(event).1[k] == SessionActionView::Send(
                crate::stream::frame::fin(id),
            ),
        v.on(event).0.stderr_id matches Some(id) ==> exists|k: int|
            0 <= k < i && #[trigger] v.on(event).1[k] == SessionActionView::Send(
                crate::stream::frame::fin(id),
            ),
{
    let (w, noted) = v.noted(event);
    lemma_noted(v, event);
    let n = noted.len() as int;
    let all = w.settled().1;
    let a = closing(w.stdout_id);
    let b = closing(w.stderr_id);
    let c = outcome_told(w.error_id, w.outcome());
    assert(i >= n && all[i - n] is Status);
    assert(all == a + b + c + seq![SessionActionView::Finish]);
    assert(i >= n + a.len() + b.len()) by {
        if i - n < a.len() + b.len() {
            assert(all[i - n] == (a + b)[i - n]);
        }
    }
    if w.stdout_id is Some {
        assert(v.on(event).1[n] == a[0]);
    }
    if w.stderr_id is Some {
        assert(v.on(event).1[n + a.len()] == b[0]);
    }
}

/// Before the outcome is told, all output has reached the client: copying that was begun has ended
/// by then, whenever it began. Only a client that left before there was an outcome to tell is not
/// waited for.
pub proof fn law_outcome_waits_for_output(v: SessionView, events: Seq<SessionEvent>, j: int, i: int)
    requires
        0 <= j < events.len(),
        0 <= i < v.after(events.take(j)).on(events[j]).1.len(),
        v.after(events).over,
        !v.after(events).abandoned,
    ensures
        v.after(events.take(j)).on(events[j]).1[i] is PumpStdout ==> exists|k: int|
            j < k < events.len() && (#[trigger] events[k]) is StdoutEnded && !v.after(
                events.take(k),
            ).over,
        v.after(events.take(j)).on(events[j]).1[i] is PumpStderr ==> exists|k: int|
            j < k < events.len() && (#[trigger] events[k]) is StderrEnded && !v.after(
                events.take(k),
            ).over,
{
    let u = v.after(events.take(j));
    let w = u.on(events[j]).0;
    let rest = events.skip(j + 1);
    lemma_after_split(v, events, j);
    lemma_after_split(v, events, j + 1);
    assert(events.take(j + 1).drop_last() =~= events.take(j));
    lemma_after_last(v, events.take(j + 1));
    lemma_pump_begins(u, events[j], i);
    if u.on(events[j]).1[i] is PumpStdout {
        let k = lemma_copy_ends(w, rest, true);
        lemma_after_split(v, events.take(j + 1 + k), j + 1);
        assert(events.take(j + 1 + k).take(j + 1) =~= events.take(j + 1));
        assert(events.take(j + 1 + k).skip(j + 1) =~= rest.take(k));
        assert(events[j + 1 + k] is StdoutEnded);
    }
    if u.on(events[j]).1[i] is PumpStderr {
        let k = lemma_copy_ends(w, rest, false);
        lemma_after_split(v, events.take(j + 1 + k), j + 1);
        assert(events.take(j + 1 + k).take(j + 1) =~= events.take(j + 1));
        assert(events.take(j + 1 + k).skip(j + 1) =~= rest.take(k));
        assert(events[j + 1 + k] is StderrEnded);
    }
}

/// Copying that begins is under way, and while it is the session is not over.
proof fn lemma_pump_begins(v: SessionView, event: SessionEvent, i: int)
    requires
        0 <= i < v.on(event).1.len(),
    ensures
        v.on(event).1[i] is PumpStdout ==> v.on(event).0.copying_stdout && (v.on(event).0.over
            ==> v.on(event).0.abandoned),
        v.on(event).1[i] is PumpStderr ==> v.on(event).0.copying_stderr && (v.on(event).0.over
            ==> v.on(event).0.abandoned),
{
    let (w, a) = v.noted(event);
    if i >= a.len() {
        let b = closing(w.stdout_id) + closing(w.stderr_id);
        let c = outcome_told(w.error_id, w.outcome());
        let all = w.settled().1;
        let k = i - a.len();
        assert(v.on(event).1[i] == all[k]);
        assert(all == b + c + seq![SessionActionView::Finish]);
        if k < b.len() {
            assert(all[k] == b[k]);
        } else if k < b.len() + c.len() {
            assert(all[k] == c[k - b.len()]);
        }
    } else {
        assert(v.on(event).1[i] == a[i]);
    }
}

/// A session in which copying is under way is over, without being abandoned, only after the copying
/// has ended.
proof fn lemma_copy_ends(v: SessionView, events: Seq<SessionEvent>, stdout: bool) -> (k: int)
    requires
        stdout ==> v.copying_stdout,
        !stdout ==> v.copying_stderr,
        v.over ==> v.abandoned,
        v.after(events).over,
        !v.after(events).abandoned,
    ensures
        0 <= k < events.len(),
        stdout ==> events[k] is StdoutEnded,
        !stdout ==> events[k] is StderrEnded,
        !v.after(events.take(k)).over,
    decreases events.len(),
{
    if v.over {
        lemma_over_is_over(v, events);
        0
    } else if stdout && events[0] is StdoutEnded || !stdout && events[0] is StderrEnded {
        assert(events.take(0) =~= Seq::empty());
        0
    } else {
        let next = v.on(events[0]).0;
        let k = lemma_copy_ends(next, events.drop_first(), stdout);
        assert(events.take(k + 1).drop_first() =~= events.drop_first().take(k));
        k + 1
    }
}

/// The first `j` events, and then the others.
proof fn lemma_after_split(v: SessionView, events: Seq<SessionEvent>, j: int)
    requires
        0 <= j <= events.len(),
    ensures
        v.after(events) == v.after(events.take(j)).after(events.skip(j)),
    decreases j,
{
    if j == 0 {
        assert(events.skip(0) =~= events);
    } else {
        lemma_after_split(v.on(events[0]).0, events.drop_first(), j - 1);
        assert(events.drop_first().take(j - 1) =~= events.take(j).drop_first());
        assert(events.drop_first().skip(j - 1) =~= events.skip(j));
    }
}

/// All events but the last, and then the last.
proof fn lemma_after_last(v: SessionView, events: Seq<SessionEvent>)
    requires
        events.len() > 0,
    ensures
        v.after(events) == v.after(events.drop_last()).on(events.last()).0,
{
    lemma_after_split(v, events, events.len() - 1);
    assert(events.take(events.len() - 1) =~= events.drop_last());
    let last = events.skip(events.len() - 1);
    assert(last.len() == 1 && last[0] == events.last());
    reveal_with_fuel(SessionView::after, 2);
}

/// Output is given up only for a client that left, and only if it was attached, or left before its
/// command had ended, or before it had opened its streams in time.
pub proof fn law_output_is_given_up_only_for_who_left(v: SessionView, event: SessionEvent)
    requires
        v.wf(),
        !v.abandoned,
        v.on(event).0.abandoned,
    ensures
        event matches SessionEvent::Client(f) && (f is Closed || f is GoAway || f is RstStream),
        v.attach || v.exit_code is None || !v.ready(),
        v.on(event).0.left,
{
}

/// Every stream that the client opens is accepted, and every ping answered, until the client leaves
/// or the session is over.
pub proof fn law_client_is_answered(v: SessionView, frame: Inbound)
    requires
        v.wf(),
        !v.over,
        !v.left,
    ensures
        frame matches Inbound::SynStream { stream_id, .. } ==> v.on(
            SessionEvent::Client(frame),
        ).1.first() == SessionActionView::Send(OutboundView::SynReply { stream_id }),
        frame matches Inbound::Ping { id } ==> v.on(SessionEvent::Client(frame)).1 == seq![
            SessionActionView::Send(OutboundView::Ping { id }),
        ],
{
    assert(v.on(SessionEvent::Client(frame)).1 =~= v.noted(SessionEvent::Client(frame)).1
        + v.noted(SessionEvent::Client(frame)).0.settled().1);
    if frame is Ping {
        assert(v.on(SessionEvent::Client(frame)).1 =~= v.noted(SessionEvent::Client(frame)).1);
    }
}

/// While the client has not opened its output and error streams, nor the one for the errors that it
/// asked for, and there is time for it to do so, the session does not end under a client that stays.
pub proof fn law_streams_are_waited_for(v: SessionView, event: SessionEvent)
    requires
        !v.over,
        ({
            let w = v.on(event).0;
            w.stdout_id is None || w.error_id is None || w.stderr && w.stderr_asked
        }),
        !v.on(event).0.late,
        !v.on(event).0.left,
        !v.on(event).0.abandoned,
    ensures
        !v.on(event).0.over,
{
}

/// A client that asked for no errors does not wait for them: once its streams are there, its output
/// has been copied and its command has ended, its session is over.
pub proof fn law_errors_that_nobody_asked_for_are_not_waited_for(
    v: SessionView,
    events: Seq<SessionEvent>,
)
    requires
        v.wf(),
        ({
            let w = v.after(events);
            &&& !w.stderr_asked
            &&& w.stdout_id is Some && w.error_id is Some
            &&& !w.copying_stdout && !w.copying_stderr
            &&& w.attach || w.exit_code is Some
        }),
    ensures
        v.after(events).over,
{
    lemma_stays_wf(v, events);
}

/// A session with a command is over once the command has ended, its output is through and the
/// client's streams are there or late, whatever came in between; the client need not leave.
pub proof fn law_session_ends_with_its_command(v: SessionView, events: Seq<SessionEvent>)
    requires
        v.wf(),
        !v.after(events).attach,
        v.after(events).exit_code is Some,
        v.after(events).ready(),
        v.after(events).drained(),
    ensures
        v.after(events).over,
{
    lemma_stays_wf(v, events);
}

proof fn lemma_stays_wf(v: SessionView, events: Seq<SessionEvent>)
    requires
        v.wf(),
    ensures
        v.after(events).wf(),
    decreases events.len(),
{
    if events.len() > 0 {
        lemma_stays_wf(v.on(events[0]).0, events.drop_first());
    }
}

/// Who is attached and leaves ends the session at once, though the container lives on.
pub proof fn law_detaching_ends_the_session(v: SessionView, frame: Inbound)
    requires
        v.attach,
        !v.left,
        frame is Closed || frame is GoAway || frame is RstStream,
    ensures
        v.on(SessionEvent::Client(frame)).0.over,
{
}

/// A session has the streams of its command, and is told of nothing before the client opens some: it
/// only begins to wait. Without a command it is over at once.
pub proof fn law_session_begins_with_its_commands_streams(
    attach: bool,
    shape: SessionShape,
    stderr_asked: bool,
)
    ensures
        ({
            let (v, actions) = SessionView::begun(attach, Some(shape), stderr_asked);
            &&& v.stdin == shape.stdin
            &&& v.stdout == shape.stdout
            &&& v.stderr == shape.stderr
            &&& v.pty == shape.pty_master
            &&& v.attach == attach
            &&& v.stderr_asked == stderr_asked
            &&& !v.over && !v.left && !v.late && !v.abandoned
            &&& v.exit_code is None
            &&& v.roles == Map::<u32, Role>::empty()
            &&& v.stdout_id is None && v.stderr_id is None && v.error_id is None
            &&& !v.copying_stdout && !v.copying_stderr
            &&& actions == seq![
                SessionActionView::Arm { millis: 5000 },
                SessionActionView::Reap,
            ]
        }),
        SessionView::begun(attach, None, stderr_asked).0.over,
        SessionView::begun(attach, None, stderr_asked).1 == seq![SessionActionView::Finish],
{
}

/// Each type of stream has a role of its own, and no other type has one.
pub proof fn law_types_name_roles(stream_type: Option<String>)
    ensures
        ({
            let role = crate::stream::frame::role_of(stream_type);
            &&& role == Role::Stdin <==> (stream_type matches Some(t) && t@ == "stdin"@)
            &&& role == Role::Stdout <==> (stream_type matches Some(t) && t@ == "stdout"@)
            &&& role == Role::Stderr <==> (stream_type matches Some(t) && t@ == "stderr"@)
            &&& role == Role::Error <==> (stream_type matches Some(t) && t@ == "error"@)
            &&& role == Role::Resize <==> (stream_type matches Some(t) && t@ == "resize"@)
        }),
{
    lemma_types_differ();
}

proof fn lemma_types_differ()
    ensures
        "stdin"@ != "stdout"@,
        "stdin"@ != "stderr"@,
        "stdin"@ != "error"@,
        "stdin"@ != "resize"@,
        "stdout"@ != "stderr"@,
        "stdout"@ != "error"@,
        "stdout"@ != "resize"@,
        "stderr"@ != "error"@,
        "stderr"@ != "resize"@,
        "error"@ != "resize"@,
{
    reveal_strlit("stdin");
    reveal_strlit("stdout");
    reveal_strlit("stderr");
    reveal_strlit("error");
    reveal_strlit("resize");
    assert("stdin"@[0] == 's' && "stdout"@[0] == 's' && "error"@[0] == 'e' && "resize"@[0] == 'r');
    assert("stdout"@[3] == 'o' && "stderr"@[3] == 'e');
}

/// Whether the frame ends the client's part: it closes the connection, or gives it or a stream up.
pub open spec fn is_leaving(frame: Inbound) -> bool {
    frame is Closed || frame is GoAway || frame is RstStream
}

/// A stream that the client opens has the role that its type names, from then on and until it is
/// opened again; all other streams keep theirs. Output that waits for a stream of its kind is copied
/// to it, and to no other; output that has its stream already is not copied twice.
pub proof fn law_opened_stream_serves_its_type(
    v: SessionView,
    stream_id: u32,
    stream_type: String,
    port: Option<String>,
    request_id: Option<String>,
    other: u32,
)
    requires
        v.wf(),
        !v.over,
        !v.left,
    ensures
        ({
            let frame = Inbound::SynStream {
                stream_id,
                stream_type: Some(stream_type),
                port,
                request_id,
            };
            let (w, actions) = v.on(SessionEvent::Client(frame));
            let t = stream_type@;
            let reply = SessionActionView::Send(OutboundView::SynReply { stream_id });
            &&& w.roles.dom().contains(stream_id)
            &&& t == "stdin"@ <==> w.roles[stream_id] == Role::Stdin
            &&& t == "resize"@ <==> w.roles[stream_id] == Role::Resize
            &&& other != stream_id ==> (w.roles.dom().contains(other) <==> v.roles.dom().contains(
                other,
            )) && w.roles[other] == v.roles[other]
            &&& w.stdout_id == if t == "stdout"@ {
                Some(stream_id)
            } else {
                v.stdout_id
            }
            &&& w.stderr_id == if t == "stderr"@ {
                Some(stream_id)
            } else {
                v.stderr_id
            }
            &&& w.error_id == if t == "error"@ {
                Some(stream_id)
            } else {
                v.error_id
            }
            &&& actions.len() > 0 && actions[0] == reply
            &&& t == "stdout"@ && v.stdout ==> actions.len() == 2 && actions[1]
                == (SessionActionView::PumpStdout { stream_id })
            &&& t == "stderr"@ && v.stderr ==> actions.len() == 2 && actions[1]
                == (SessionActionView::PumpStderr { stream_id })
            &&& w.stdout <==> v.stdout && t != "stdout"@
            &&& w.stderr <==> v.stderr && t != "stderr"@
            &&& w.copying_stdout <==> v.copying_stdout || v.stdout && t == "stdout"@
            &&& w.copying_stderr <==> v.copying_stderr || v.stderr && t == "stderr"@
            &&& forall|i: int|
                0 <= i < actions.len() ==> ((#[trigger] actions[i]) is PumpStdout ==> t
                    == "stdout"@ && v.stdout) && (actions[i] is PumpStderr ==> t == "stderr"@
                    && v.stderr)
            &&& w.stdin == v.stdin && w.pty == v.pty && w.left == v.left && w.late == v.late
            &&& w.exit_code == v.exit_code && w.abandoned == v.abandoned && w.attach == v.attach
                && w.stderr_asked == v.stderr_asked
        }),
{
    lemma_types_differ();
    let frame = Inbound::SynStream { stream_id, stream_type: Some(stream_type), port, request_id };
    let event = SessionEvent::Client(frame);
    let (w, a) = v.noted(event);
    let role = crate::stream::frame::role_of(Some(stream_type));
    assert(a == seq![SessionActionView::Send(OutboundView::SynReply { stream_id })] + v.pump(
        stream_id,
        role,
    ));
    assert(v.on(event).1 == a + w.settled().1);
    assert(v.on(event).1[0] == a[0]);
    assert forall|i: int| 0 <= i < v.on(event).1.len() implies ((#[trigger] v.on(event).1[i])
        is PumpStdout ==> stream_type@ == "stdout"@ && v.stdout) && (v.on(event).1[i] is PumpStderr
        ==> stream_type@ == "stderr"@ && v.stderr) by {
        if i < a.len() {
            assert(v.on(event).1[i] == a[i]);
        } else {
            lemma_pump_is_noted(v, event, i);
        }
    }
    if w.done() {
        assert(!w.copying_stdout && !w.copying_stderr || w.abandoned);
    } else {
        assert(w.settled().1 =~= Seq::empty());
        assert(v.on(event).1 =~= a);
    }
}

/// Copying never begins where a session ends.
proof fn lemma_pump_is_noted(v: SessionView, event: SessionEvent, i: int)
    requires
        !v.over,
        v.noted(event).1.len() <= i < v.on(event).1.len(),
    ensures
        !(v.on(event).1[i] is PumpStdout),
        !(v.on(event).1[i] is PumpStderr),
        !(v.on(event).1[i] is Input),
{
    let (w, a) = v.noted(event);
    let b = closing(w.stdout_id) + closing(w.stderr_id);
    let c = outcome_told(w.error_id, w.outcome());
    let all = w.settled().1;
    let k = i - a.len();
    assert(v.on(event).1[i] == all[k]);
    assert(all == b + c + seq![SessionActionView::Finish]);
    if k < b.len() {
        assert(all[k] == b[k]);
    } else if k < b.len() + c.len() {
        assert(all[k] == c[k - b.len()]);
    }
}

/// What the client sends on a stream for input is written to the command, all of it and nothing else,
/// in a session of either verb; its end closes the input, and then no more is written.
pub proof fn law_input_reaches_the_command(
    v: SessionView,
    stream_id: u32,
    flags: u8,
    data: Vec<u8>,
)
    requires
        v.wf(),
        !v.over,
        !v.left,
        v.roles.dom().contains(stream_id),
        v.roles[stream_id] == Role::Stdin,
    ensures
        ({
            let (w, actions) = v.on(SessionEvent::Client(Inbound::Data { stream_id, flags, data }));
            &&& v.stdin && flags % 2 == 0 ==> actions == seq![SessionActionView::Input(data@)]
            &&& v.stdin && flags % 2 == 1 ==> actions == seq![
                SessionActionView::Input(data@),
                SessionActionView::CloseInput,
            ]
            &&& !v.stdin ==> actions == Seq::<SessionActionView>::empty()
            &&& w.stdin == (v.stdin && flags % 2 == 0)
            &&& w == (SessionView { stdin: w.stdin, ..v })
        }),
{
    let event = SessionEvent::Client(Inbound::Data { stream_id, flags, data });
    let (w, a) = v.noted(event);
    assert(w =~= (SessionView { stdin: w.stdin, ..v }));
    assert(w.settled().1 =~= Seq::empty());
    assert(v.on(event).1 =~= a);
}

/// What the client sends on a stream for sizes is a size for the terminal, if there is one. What it
/// sends on any other stream is not looked at, and changes nothing.
pub proof fn law_other_data_is_no_input(v: SessionView, stream_id: u32, flags: u8, data: Vec<u8>)
    requires
        v.wf(),
        !v.over,
        !v.left,
        !v.roles.dom().contains(stream_id) || v.roles[stream_id] != Role::Stdin,
    ensures
        ({
            let (w, actions) = v.on(SessionEvent::Client(Inbound::Data { stream_id, flags, data }));
            &&& w == v
            &&& if v.roles.dom().contains(stream_id) && v.roles[stream_id] == Role::Resize && v.pty {
                actions == seq![SessionActionView::Resize(data@)]
            } else {
                actions == Seq::<SessionActionView>::empty()
            }
        }),
{
    let event = SessionEvent::Client(Inbound::Data { stream_id, flags, data });
    let (w, a) = v.noted(event);
    assert(w == v);
    assert(w.settled().1 =~= Seq::empty());
    assert(v.on(event).1 =~= a);
}

/// All that was written to the command.
pub open spec fn written(actions: Seq<SessionActionView>) -> Seq<u8>
    decreases actions.len(),
{
    if actions.len() == 0 {
        Seq::empty()
    } else {
        match actions[0] {
            SessionActionView::Input(data) => data + written(actions.drop_first()),
            _ => written(actions.drop_first()),
        }
    }
}

/// All that the client sent on the stream, up to its end.
pub open spec fn typed(events: Seq<SessionEvent>, stream_id: u32) -> Seq<u8>
    decreases events.len(),
{
    if events.len() == 0 {
        Seq::empty()
    } else {
        match events[0] {
            SessionEvent::Client(Inbound::Data { stream_id: id, flags, data }) => if id
                != stream_id {
                typed(events.drop_first(), stream_id)
            } else if flags % 2 == 1 {
                data@
            } else {
                data@ + typed(events.drop_first(), stream_id)
            },
            _ => typed(events.drop_first(), stream_id),
        }
    }
}

/// Whether the client stays, and opens neither the stream again nor another for input.
pub open spec fn types_on(events: Seq<SessionEvent>, stream_id: u32) -> bool {
    forall|i: int|
        0 <= i < events.len() ==> match #[trigger] events[i] {
            SessionEvent::Client(Inbound::SynStream { stream_id: id, stream_type, .. }) => id
                != stream_id && !(stream_type matches Some(t) && t@ == "stdin"@),
            SessionEvent::Client(f) => !is_leaving(f),
            _ => true,
        }
}

/// Over a whole session of either verb, what is written to the command is what the client sent on its
/// stream for input, byte for byte and in order, up to the end of that stream.
pub proof fn law_input_is_carried_over_a_session(
    v: SessionView,
    events: Seq<SessionEvent>,
    stream_id: u32,
)
    requires
        v.wf(),
        !v.left,
        !v.after(events).over,
        v.stdin,
        v.roles.dom().contains(stream_id),
        v.roles[stream_id] == Role::Stdin,
        forall|k: u32| #[trigger]
            v.roles.dom().contains(k) && k != stream_id ==> v.roles[k] != Role::Stdin,
        types_on(events, stream_id),
    ensures
        written(v.actions(events)) == typed(events, stream_id),
{
    lemma_input_is_carried(v, events, stream_id);
}

/// While the client has not ended its input, what it types is written; after that nothing is.
proof fn lemma_input_is_carried(v: SessionView, events: Seq<SessionEvent>, stream_id: u32)
    requires
        v.wf(),
        !v.left,
        !v.after(events).over,
        v.roles.dom().contains(stream_id),
        v.roles[stream_id] == Role::Stdin,
        forall|k: u32| #[trigger]
            v.roles.dom().contains(k) && k != stream_id ==> v.roles[k] != Role::Stdin,
        types_on(events, stream_id),
    ensures
        v.stdin ==> written(v.actions(events)) == typed(events, stream_id),
        !v.stdin ==> written(v.actions(events)) == Seq::<u8>::empty(),
    decreases events.len(),
{
    if events.len() > 0 {
        let event = events[0];
        let rest = events.drop_first();
        let (w, a) = v.on(event);
        if v.over {
            lemma_over_is_over(v, events);
        }
        if w.over {
            lemma_over_is_over(w, rest);
        }
        assert(types_on(rest, stream_id)) by {
            assert forall|i: int| 0 <= i < rest.len() implies match #[trigger] rest[i] {
                SessionEvent::Client(Inbound::SynStream { stream_id: id, stream_type, .. }) => id
                    != stream_id && !(stream_type matches Some(t) && t@ == "stdin"@),
                SessionEvent::Client(f) => !is_leaving(f),
                _ => true,
            } by {
                assert(rest[i] == events[i + 1]);
            }
        }
        if let SessionEvent::Client(Inbound::SynStream { stream_id: id, stream_type, .. }) = event {
            law_types_name_roles(stream_type);
        }
        lemma_input_is_carried(w, rest, stream_id);
        lemma_written_adds(a, w.actions(rest));
        match event {
            SessionEvent::Client(Inbound::Data { stream_id: id, flags, data }) => {
                if id == stream_id {
                    law_input_reaches_the_command(v, id, flags, data);
                    reveal_with_fuel(written, 3);
                    assert(seq![SessionActionView::Input(data@)].drop_first() =~= Seq::empty());
                    let two = seq![SessionActionView::Input(data@), SessionActionView::CloseInput];
                    assert(two.drop_first() =~= seq![SessionActionView::CloseInput]);
                    assert(two.drop_first().drop_first() =~= Seq::empty());
                    assert(data@ + Seq::<u8>::empty() =~= data@);
                    assert(data@ + written(w.actions(rest)) =~= data@ + written(w.actions(rest)));
                } else {
                    law_other_data_is_no_input(v, id, flags, data);
                    lemma_nothing_written(a);
                }
            },
            _ => {
                lemma_no_input(v, event);
                lemma_nothing_written(a);
            },
        }
        assert(Seq::<u8>::empty() + written(w.actions(rest)) =~= written(w.actions(rest)));
    }
}

/// Only data of the client is written to the command.
proof fn lemma_no_input(v: SessionView, event: SessionEvent)
    requires
        !(event matches SessionEvent::Client(f) && f is Data),
    ensures
        forall|i: int| 0 <= i < v.on(event).1.len() ==> !((#[trigger] v.on(event).1[i]) is Input),
{
    if !v.over {
        let (w, a) = v.noted(event);
        assert forall|i: int| 0 <= i < v.on(event).1.len() implies !((#[trigger] v.on(event).1[i])
            is Input) by {
            if i >= a.len() {
                lemma_pump_is_noted(v, event, i);
            } else {
                assert(v.on(event).1[i] == a[i]);
            }
        }
    }
}

proof fn lemma_nothing_written(actions: Seq<SessionActionView>)
    requires
        forall|i: int| 0 <= i < actions.len() ==> !((#[trigger] actions[i]) is Input),
    ensures
        written(actions) == Seq::<u8>::empty(),
    decreases actions.len(),
{
    if actions.len() > 0 {
        let rest = actions.drop_first();
        assert forall|i: int| 0 <= i < rest.len() implies !((#[trigger] rest[i]) is Input) by {
            assert(rest[i] == actions[i + 1]);
        }
        lemma_nothing_written(rest);
    }
}

proof fn lemma_written_adds(a: Seq<SessionActionView>, b: Seq<SessionActionView>)
    ensures
        written(a + b) == written(a) + written(b),
    decreases a.len(),
{
    if a.len() == 0 {
        assert(a + b =~= b);
        assert(written(a) + written(b) =~= written(b));
    } else {
        lemma_written_adds(a.drop_first(), b);
        assert((a + b).drop_first() =~= a.drop_first() + b);
        assert(written(a + b) =~= written(a) + written(b));
    }
}

/// How the command ended is known from when it was reaped, and stays known: it is the code that was
/// reaped, or -1 if the command could not be waited for.
pub proof fn law_exit_code_is_the_one_reaped(v: SessionView, event: SessionEvent)
    requires
        !v.over,
    ensures
        v.on(event).0.exit_code == match event {
            SessionEvent::Reaped(Some(code)) => Some(code),
            SessionEvent::Reaped(None) => Some(-1i32),
            _ => v.exit_code,
        },
{
}

/// The end of copying is noted, each for its own output, and changes nothing else but that the session
/// may end; so does the end of the time for opening streams.
pub proof fn law_copying_ends_one_by_one(v: SessionView)
    requires
        !v.over,
    ensures
        ({
            let w = v.on(SessionEvent::StdoutEnded).0;
            w == (SessionView { copying_stdout: false, over: w.over, ..v })
        }),
        ({
            let w = v.on(SessionEvent::StderrEnded).0;
            w == (SessionView { copying_stderr: false, over: w.over, ..v })
        }),
        ({
            let w = v.on(SessionEvent::TimeOver).0;
            w == (SessionView { late: true, over: w.over, ..v })
        }),
{
}

/// A command whose client has left is still waited for, and how it ended is told as soon as it is
/// known; its input and its output are given up.
pub proof fn law_command_of_who_left_is_reaped(v: SessionView, frame: Inbound, code: i32)
    requires
        v.wf(),
        !v.over,
        !v.left,
        !v.attach,
        v.exit_code is None,
        is_leaving(frame),
    ensures
        ({
            let left = v.on(SessionEvent::Client(frame));
            let reaped = left.0.on(SessionEvent::Reaped(Some(code)));
            &&& !left.0.over
            &&& left.1 == Seq::<SessionActionView>::empty()
            &&& reaped.0.over
            &&& v.error_id matches Some(id) ==> reaped.1.contains(
                SessionActionView::Status { stream_id: id, exit_code: code },
            )
            &&& forall|event: SessionEvent|
                event is Client ==> (#[trigger] left.0.on(event)).1
                    == Seq::<SessionActionView>::empty()
        }),
{
    let left = v.on(SessionEvent::Client(frame));
    assert(left.1 =~= Seq::empty());
    let event = SessionEvent::Reaped(Some(code));
    let w = left.0.noted(event).0;
    if let Some(id) = v.error_id {
        let a = closing(w.stdout_id) + closing(w.stderr_id);
        let told = SessionActionView::Status { stream_id: id, exit_code: code };
        assert(left.0.on(event).1[a.len() as int] == told);
    }
    assert forall|event: SessionEvent| event is Client implies (#[trigger] left.0.on(event)).1
        == Seq::<SessionActionView>::empty() by {
        assert(left.0.on(event).1 =~= Seq::empty());
    }
}

/// A session that ends closes the output streams that the client opened last, tells the outcome where
/// the client listens for it, and finishes; it does nothing else for that.
pub proof fn law_end_of_a_session(v: SessionView, event: SessionEvent)
    requires
        !v.over,
        v.on(event).0.over,
        !(event is Client),
    ensures
        ({
            let (w, actions) = v.on(event);
            let count = |id: Option<u32>|
                if id is Some {
                    1int
                } else {
                    0int
                };
            &&& actions.len() == count(w.stdout_id) + count(w.stderr_id) + count(w.error_id) + 1
            &&& actions.last() == SessionActionView::Finish
            &&& w.stdout_id matches Some(id) ==> actions.contains(
                SessionActionView::Send(
                    OutboundView::Data { stream_id: id, flags: 1, data: Seq::empty() },
                ),
            )
            &&& w.stderr_id matches Some(id) ==> actions.contains(
                SessionActionView::Send(
                    OutboundView::Data { stream_id: id, flags: 1, data: Seq::empty() },
                ),
            )
            &&& w.error_id matches Some(id) ==> (actions[actions.len() - 2]
                matches SessionActionView::Status { stream_id, exit_code } && stream_id == id
                && exit_code == (if w.attach {
                0i32
            } else {
                w.exit_code->0
            }))
        }),
{
    let (n, a) = v.noted(event);
    let actions = v.on(event).1;
    let x = closing(n.stdout_id);
    let y = closing(n.stderr_id);
    assert(a =~= Seq::empty());
    assert(actions =~= n.settled().1);
    if n.stdout_id is Some {
        assert(actions[0] == x[0]);
    }
    if n.stderr_id is Some {
        assert(actions[x.len() as int] == y[0]);
    }
}

/// When a session ends: when its command has ended, or nobody waits for it; and when all output has
/// been copied to the streams that the client opened for it, or the client has given that up. Streams
/// that the client has not opened are waited for until the time is over.
pub proof fn law_when_a_session_ends(v: SessionView, event: SessionEvent)
    requires
        v.wf(),
        !v.over,
    ensures
        ({
            let w = v.on(event).0;
            let opened = w.stdout_id is Some && w.error_id is Some;
            let copied = !w.copying_stdout && !w.copying_stderr;
            let errors_to_come = w.stderr && w.stderr_asked && !w.late && !w.left;
            w.over <==> {
                &&& w.attach || w.exit_code is Some
                &&& w.abandoned || (w.late || opened) && copied && !errors_to_come
            }
        }),
{
}

/// A client that leaves gives up what its command writes if it is attached, if the command has not
/// ended, or if the streams for the output are not there; otherwise the output is still copied. The
/// session is the same in everything else.
pub proof fn law_what_leaving_gives_up(v: SessionView, frame: Inbound)
    requires
        !v.over,
        !v.left,
        is_leaving(frame),
    ensures
        ({
            let w = v.on(SessionEvent::Client(frame)).0;
            &&& w.left
            &&& w.abandoned <==> v.attach || v.exit_code is None || !v.late && (v.stdout_id is None
                || v.error_id is None)
            &&& w == (SessionView { left: true, abandoned: w.abandoned, over: w.over, ..v })
        }),
{
}

/// What the client sends after it has left, and what is sent to a session that is over, is not looked
/// at; what says nothing changes nothing.
pub proof fn law_who_left_is_not_heard(v: SessionView, frame: Inbound, event: SessionEvent)
    requires
        v.wf(),
    ensures
        v.over ==> v.on(event) == (v, Seq::<SessionActionView>::empty()),
        v.left ==> v.on(SessionEvent::Client(frame)) == (v, Seq::<SessionActionView>::empty()),
        v.on(SessionEvent::Client(Inbound::Ignored)) == (v, Seq::<SessionActionView>::empty()),
{
    assert(v.on(SessionEvent::Client(Inbound::Ignored)).1 =~= Seq::empty());
    if v.left {
        assert(v.on(SessionEvent::Client(frame)).1 =~= Seq::empty());
    }
}

} // verus!
