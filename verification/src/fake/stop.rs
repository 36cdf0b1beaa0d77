//! Stopping a container.

use crate::fake::disk::{write_result, DiskView, WriteFault};
use crate::fake::record::{ContainerRecord, ContainerRecordView};
use crate::fake::{BackendView, FakeBackend};
use crate::types::{BackendError, BackendErrorView, ContainerId, ContainerState};
use vstd::pervasive::unreached;
use vstd::prelude::*;

verus! {

/// The signal that asks a process to end.
pub const SIGTERM: i32 = 15;

/// The signal that ends a process.
pub const SIGKILL: i32 = 9;

/// How long a process has between the two.
pub const SETTLE_MILLIS: u64 = 100;

/// The exit code noted of a container that was stopped.
pub const STOPPED_EXIT_CODE: i32 = 143;

/// What an operation without a result of its own came to.
pub open spec fn outcome(r: Result<(), BackendError>) -> Result<(), BackendErrorView> {
    match r {
        Ok(_) => Ok(()),
        Err(e) => Err(e@),
    }
}

/// What an operation that ends with a write came to.
pub open spec fn write_outcome(w: Result<(), WriteFault>) -> Result<(), BackendErrorView> {
    match w {
        Ok(_) => Ok(()),
        Err(f) => Err(crate::fake::disk::write_error_of(f)),
    }
}

/// What is being waited for.
#[derive(Clone, Copy, Debug, PartialEq, Eq, Structural)]
pub enum StopPhase {
    /// That the process was asked to end.
    Asking,
    /// That it had its time.
    Settling,
    /// That it was ended.
    Killing,
    /// The time.
    Timing,
    /// That the record was written.
    Writing,
    /// Nothing more.
    Over,
}

/// A container being stopped.
#[derive(Debug)]
pub struct StopContainer {
    id: ContainerId,
    pid: u32,
    phase: StopPhase,
}

/// Where a [`StopContainer`] stands.
#[verifier::ext_equal]
pub struct StopView {
    pub id: Seq<char>,
    pub pid: u32,
    pub phase: StopPhase,
}

impl View for StopContainer {
    type V = StopView;

    closed spec fn view(&self) -> StopView {
        StopView { id: self.id@, pid: self.pid, phase: self.phase }
    }
}

/// What is to be done next.
#[derive(Debug)]
pub enum StopAction {
    /// Send the signal to the process; whether it arrives does not matter.
    Signal { pid: u32, signal: i32 },
    /// Wait, and then see whether the process is there.
    Settle { pid: u32, millis: u64 },
    ReadClock,
    Write(ContainerRecord),
    Done(Result<(), BackendError>),
}

/// What a [`StopAction`] asks for.
#[verifier::ext_equal]
pub enum StopActionView {
    Signal { pid: u32, signal: i32 },
    Settle { pid: u32, millis: u64 },
    ReadClock,
    Write(ContainerRecordView),
    Done(Result<(), BackendErrorView>),
}

impl View for StopAction {
    type V = StopActionView;

    open spec fn view(&self) -> StopActionView {
        match *self {
            StopAction::Signal { pid, signal } => StopActionView::Signal { pid, signal },
            StopAction::Settle { pid, millis } => StopActionView::Settle { pid, millis },
            StopAction::ReadClock => StopActionView::ReadClock,
            StopAction::Write(rec) => StopActionView::Write(rec@),
            StopAction::Done(r) => StopActionView::Done(outcome(r)),
        }
    }
}

/// What came of it.
#[derive(Debug)]
pub enum StopEvent {
    Signalled,
    Settled { alive: bool },
    Clock(i64),
    Written(Result<(), WriteFault>),
}

/// What follows a step: the machine, the backend and the next action.
#[verifier::ext_equal]
pub struct StopStep {
    pub machine: StopView,
    pub backend: BackendView,
    pub action: StopActionView,
}

impl StopView {
    /// The events that answer the pending action.
    pub open spec fn awaits(self, event: StopEvent) -> bool {
        match self.phase {
            StopPhase::Asking => event is Signalled,
            StopPhase::Settling => event is Settled,
            StopPhase::Killing => event is Signalled,
            StopPhase::Timing => event is Clock,
            StopPhase::Writing => event is Written,
            StopPhase::Over => false,
        }
    }

    /// How stopping a container begins: one that is not running is stopped already.
    pub open spec fn begun(b: BackendView, id: Seq<char>) -> StopStep {
        if !b.is_running(id) {
            StopStep {
                machine: StopView { id, pid: 0, phase: StopPhase::Over },
                backend: b,
                action: StopActionView::Done(Ok(())),
            }
        } else {
            let pid = b.containers[id].pid;
            if pid > 0 {
                StopStep {
                    machine: StopView { id, pid, phase: StopPhase::Asking },
                    backend: b,
                    action: StopActionView::Signal { pid, signal: SIGTERM },
                }
            } else {
                StopStep {
                    machine: StopView { id, pid, phase: StopPhase::Timing },
                    backend: b,
                    action: StopActionView::ReadClock,
                }
            }
        }
    }

    /// How it goes on after an event that it awaits.
    pub open spec fn next(self, b: BackendView, event: StopEvent) -> StopStep {
        match event {
            StopEvent::Signalled => if self.phase == StopPhase::Asking {
                StopStep {
                    machine: StopView { phase: StopPhase::Settling, ..self },
                    backend: b,
                    action: StopActionView::Settle { pid: self.pid, millis: SETTLE_MILLIS },
                }
            } else {
                self.timing(b)
            },
            StopEvent::Settled { alive } => if alive {
                StopStep {
                    machine: StopView { phase: StopPhase::Killing, ..self },
                    backend: b,
                    action: StopActionView::Signal { pid: self.pid, signal: SIGKILL },
                }
            } else {
                self.timing(b)
            },
            StopEvent::Clock(now_nanos) => if b.is_running(self.id) {
                let rec = stopped_record(b.containers[self.id], now_nanos);
                StopStep {
                    machine: StopView { phase: StopPhase::Writing, ..self },
                    backend: b.put_container(rec),
                    action: StopActionView::Write(rec),
                }
            } else {
                self.over(b, Ok(()))
            },
            StopEvent::Written(w) => self.over(b, write_outcome(w)),
        }
    }

    /// Waiting for the time.
    pub open spec fn timing(self, b: BackendView) -> StopStep {
        StopStep {
            machine: StopView { phase: StopPhase::Timing, ..self },
            backend: b,
            action: StopActionView::ReadClock,
        }
    }

    /// Over, with this outcome.
    pub open spec fn over(self, b: BackendView, r: Result<(), BackendErrorView>) -> StopStep {
        StopStep {
            machine: StopView { phase: StopPhase::Over, ..self },
            backend: b,
            action: StopActionView::Done(r),
        }
    }
}

/// The record of a container that was running and has been stopped.
pub open spec fn stopped_record(rec: ContainerRecordView, now_nanos: i64) -> ContainerRecordView {
    ContainerRecordView {
        state: ContainerState::Exited,
        finished_at_nanos: now_nanos,
        exit_code: STOPPED_EXIT_CODE,
        reason: "stopped"@,
        ..rec
    }
}

impl StopContainer {
    /// Begins to stop the container.
    pub fn begin(backend: &FakeBackend, id: &ContainerId) -> (r: (StopContainer, StopAction))
        ensures
            r.0@ == StopView::begun(backend@, id@).machine,
            r.1@ == StopView::begun(backend@, id@).action,
    {
        let rec = match backend.containers.get(id.0.as_str()) {
            None => {
                let m = StopContainer { id: id.clone(), pid: 0, phase: StopPhase::Over };
                return (m, StopAction::Done(Ok(())));
            },
            Some(rec) => rec,
        };
        match rec.state {
            ContainerState::Created | ContainerState::Exited | ContainerState::Unknown => {
                let m = StopContainer { id: id.clone(), pid: 0, phase: StopPhase::Over };
                (m, StopAction::Done(Ok(())))
            },
            ContainerState::Running => {
                let pid: u32 = rec.pid;
                if pid > 0 {
                    let m = StopContainer { id: id.clone(), pid, phase: StopPhase::Asking };
                    (m, StopAction::Signal { pid, signal: SIGTERM })
                } else {
                    let m = StopContainer { id: id.clone(), pid, phase: StopPhase::Timing };
                    (m, StopAction::ReadClock)
                }
            },
        }
    }

    /// Goes on after an event.
    pub fn next(&mut self, backend: &mut FakeBackend, event: StopEvent) -> (r: StopAction)
        requires
            old(backend)@.wf(),
            old(self)@.awaits(event),
        ensures
            final(backend)@.wf(),
            final(self)@ == old(self)@.next(old(backend)@, event).machine,
            final(backend)@ == old(self)@.next(old(backend)@, event).backend,
            r@ == old(self)@.next(old(backend)@, event).action,
    {
        match (self.phase, event) {
            (StopPhase::Asking, StopEvent::Signalled) => {
                self.phase = StopPhase::Settling;
                StopAction::Settle { pid: self.pid, millis: SETTLE_MILLIS }
            },
            (StopPhase::Settling, StopEvent::Settled { alive }) => {
                if alive {
                    self.phase = StopPhase::Killing;
                    StopAction::Signal { pid: self.pid, signal: SIGKILL }
                } else {
                    self.phase = StopPhase::Timing;
                    StopAction::ReadClock
                }
            },
            (StopPhase::Killing, StopEvent::Signalled) => {
                self.phase = StopPhase::Timing;
                StopAction::ReadClock
            },
            (StopPhase::Timing, StopEvent::Clock(now_nanos)) => {
                match backend.stop_recorded(&self.id, now_nanos) {
                    Some(rec) => {
                        self.phase = StopPhase::Writing;
                        StopAction::Write(rec)
                    },
                    None => {
                        self.phase = StopPhase::Over;
                        StopAction::Done(Ok(()))
                    },
                }
            },
            (StopPhase::Writing, StopEvent::Written(w)) => {
                self.phase = StopPhase::Over;
                StopAction::Done(write_result(w))
            },
            _ => unreached(),
        }
    }
}

impl FakeBackend {
    fn stop_recorded(&mut self, id: &ContainerId, now_nanos: i64) -> (r: Option<ContainerRecord>)
        requires
            old(self)@.wf(),
        ensures
            final(self)@.wf(),
            r is Some <==> old(self)@.is_running(id@),
            match r {
                Some(rec) => rec@ == stopped_record(old(self)@.containers[id@], now_nanos)
                    && final(self)@ == old(self)@.put_container(rec@),
                None => final(self)@ == old(self)@,
            },
    {
        let rec = match self.containers.get(id.0.as_str()) {
            None => {
                return None;
            },
            Some(rec) => {
                if rec.state != ContainerState::Running {
                    return None;
                }
                let mut rec = rec.clone();
                rec.state = ContainerState::Exited;
                rec.finished_at_nanos = now_nanos;
                rec.exit_code = STOPPED_EXIT_CODE;
                rec.reason = "stopped".to_owned();
                rec
            },
        };
        self.store_container(rec.clone());
        Some(rec)
    }
}

/// A container being stopped, and what the files say meanwhile.
#[verifier::ext_equal]
pub struct StopRun {
    pub step: StopStep,
    pub disk: DiskView,
}

impl StopRun {
    /// After the pending action was done and gave the event.
    pub open spec fn after(self, event: StopEvent) -> StopRun {
        StopRun {
            step: self.step.machine.next(self.step.backend, event),
            disk: match (self.step.action, event) {
                (StopActionView::Write(rec), StopEvent::Written(Ok(_))) => self.disk.wrote_container(
                    rec,
                ),
                _ => self.disk,
            },
        }
    }

    /// After all of the events.
    pub open spec fn after_all(self, events: Seq<StopEvent>) -> StopRun
        decreases events.len(),
    {
        if events.len() == 0 {
            self
        } else {
            self.after(events[0]).after_all(events.drop_first())
        }
    }

    /// Whether each of the events answers what was pending.
    pub open spec fn answered_by(self, events: Seq<StopEvent>) -> bool
        decreases events.len(),
    {
        events.len() > 0 ==> self.step.machine.awaits(events[0]) && self.after(
            events[0],
        ).answered_by(events.drop_first())
    }

    /// What holds on the way, for a container of `b0`.
    pub open spec fn on_the_way(self, b0: BackendView, id: Seq<char>) -> bool {
        let s = self.step;
        &&& s.machine.id == id
        &&& s.machine.phase == StopPhase::Over <==> s.action is Done
        &&& s.machine.phase == StopPhase::Writing <==> s.action is Write
        &&& match s.action {
            StopActionView::Write(rec) => {
                &&& b0.is_running(id)
                &&& rec == stopped_record(b0.containers[id], rec.finished_at_nanos)
                &&& s.backend == b0.put_container(rec)
                &&& self.disk == b0.disk()
            },
            StopActionView::Done(r) => stop_done(b0, id, self, r),
            _ => b0.is_running(id) && s.backend == b0 && self.disk == b0.disk(),
        }
    }
}

/// What stopping a container comes to, from where the files and the backend agree: one that was not
/// running is left as it is; one that was running has exited, and unless the files could not be
/// written they say so too.
pub open spec fn stop_done(
    b0: BackendView,
    id: Seq<char>,
    run: StopRun,
    r: Result<(), BackendErrorView>,
) -> bool {
    let rec = run.step.backend.containers[id];
    if !b0.is_running(id) {
        run.step.backend == b0 && run.disk == b0.disk() && r is Ok
    } else {
        &&& rec == stopped_record(b0.containers[id], rec.finished_at_nanos)
        &&& run.step.backend == b0.put_container(rec)
        &&& run.disk == if r is Ok {
            run.step.backend.disk()
        } else {
            b0.disk()
        }
    }
}

/// However the process takes it, once a container has been stopped it is not running, nothing else
/// has changed, and where success is reported the files agree.
pub proof fn law_stop_ends_the_container(b0: BackendView, id: Seq<char>, events: Seq<StopEvent>)
    requires
        b0.wf(),
        (StopRun { step: StopView::begun(b0, id), disk: b0.disk() }).answered_by(events),
    ensures
        ({
            let end = (StopRun { step: StopView::begun(b0, id), disk: b0.disk() }).after_all(events);
            end.step.action matches StopActionView::Done(r) ==> {
                &&& !end.step.backend.is_running(id)
                &&& stop_done(b0, id, end, r)
            }
        }),
{
    let start = StopRun { step: StopView::begun(b0, id), disk: b0.disk() };
    lemma_on_the_way(start, b0, id, events);
}

proof fn lemma_on_the_way(run: StopRun, b0: BackendView, id: Seq<char>, events: Seq<StopEvent>)
    requires
        b0.wf(),
        run.on_the_way(b0, id),
        run.answered_by(events),
    ensures
        run.after_all(events).on_the_way(b0, id),
    decreases events.len(),
{
    if events.len() > 0 {
        lemma_stays_on_the_way(run, b0, id, events[0]);
        lemma_on_the_way(run.after(events[0]), b0, id, events.drop_first());
    }
}

/// One more event keeps what holds on the way.
pub proof fn lemma_stays_on_the_way(
    run: StopRun,
    b0: BackendView,
    id: Seq<char>,
    event: StopEvent,
)
    requires
        b0.wf(),
        run.on_the_way(b0, id),
        run.step.machine.awaits(event),
    ensures
        run.after(event).on_the_way(b0, id),
{
    let next = run.after(event);
    if b0.containers.dom().contains(id) {
        assert(b0.containers[id].id == id);
    }
    assert(next.step.action is Done ==> next.step.backend.disk() =~= next.disk || next.disk
        == b0.disk());
}

/// What can happen while a container is being stopped: an event that was awaited, or the end of the
/// container's process, noted by whoever waits for it.
pub enum Happening {
    Stop(StopEvent),
    Exited { exit_code: i32, reason: Seq<char>, now_nanos: i64 },
}

impl StopStep {
    /// After it happened.
    pub open spec fn after(self, h: Happening) -> StopStep {
        match h {
            Happening::Stop(event) => self.machine.next(self.backend, event),
            Happening::Exited { exit_code, reason, now_nanos } => StopStep {
                backend: self.backend.exited_container(
                    self.machine.id,
                    exit_code,
                    reason,
                    now_nanos,
                ),
                ..self
            },
        }
    }

    /// After all of it happened.
    pub open spec fn after_all(self, hs: Seq<Happening>) -> StopStep
        decreases hs.len(),
    {
        if hs.len() == 0 {
            self
        } else {
            self.after(hs[0]).after_all(hs.drop_first())
        }
    }

    /// Whether each event came when it was awaited.
    pub open spec fn answered_by(self, hs: Seq<Happening>) -> bool
        decreases hs.len(),
    {
        hs.len() > 0 ==> (hs[0] matches Happening::Stop(e) ==> self.machine.awaits(e))
            && self.after(hs[0]).answered_by(hs.drop_first())
    }

    /// What holds on the way, whatever happens.
    spec fn in_hand(self, b0: BackendView, id: Seq<char>) -> bool {
        &&& self.machine.id == id
        &&& self.backend.wf()
        &&& self.action is Done ==> self.machine.phase == StopPhase::Over
        &&& self.machine.phase == StopPhase::Writing || self.machine.phase == StopPhase::Over
            ==> !self.backend.is_running(id)
        &&& only_differs_at(b0, id, self.backend)
    }
}

/// Whether nothing but the container has changed, and the streams held of it.
pub open spec fn only_differs_at(b0: BackendView, id: Seq<char>, b: BackendView) -> bool {
    &&& b.sandboxes == b0.sandboxes
    &&& b.images == b0.images
    &&& b.containers.remove(id) == b0.containers.remove(id)
    &&& b.io.remove(id) == b0.io.remove(id)
}

/// A container whose process ends by itself while it is being stopped is stopped all the same: it is
/// not running in the end, and nothing else has changed.
pub proof fn law_stop_may_race_with_the_exit(b0: BackendView, id: Seq<char>, hs: Seq<Happening>)
    requires
        b0.wf(),
        StopView::begun(b0, id).answered_by(hs),
    ensures
        ({
            let end = StopView::begun(b0, id).after_all(hs);
            end.action is Done ==> {
                &&& !end.backend.is_running(id)
                &&& only_differs_at(b0, id, end.backend)
            }
        }),
{
    lemma_in_hand(StopView::begun(b0, id), b0, id, hs);
}

proof fn lemma_in_hand(s: StopStep, b0: BackendView, id: Seq<char>, hs: Seq<Happening>)
    requires
        s.in_hand(b0, id),
        s.answered_by(hs),
    ensures
        s.after_all(hs).in_hand(b0, id),
    decreases hs.len(),
{
    if hs.len() > 0 {
        let next = s.after(hs[0]);
        let b = s.backend;
        if b.containers.dom().contains(id) {
            assert(b.containers[id].id == id);
        }
        assert forall|k: Seq<char>| #[trigger] next.backend.containers.dom().contains(k) implies
            next.backend.containers[k].id == k by {
            if k != id {
                assert(b.containers.dom().contains(k));
            }
        }
        assert(next.backend.containers.remove(id) =~= b.containers.remove(id));
        assert(next.backend.io.remove(id) =~= b.io.remove(id));
        lemma_in_hand(next, b0, id, hs.drop_first());
    }
}

/// To stop a container that is not running does nothing and succeeds.
pub proof fn law_stop_is_idempotent(b: BackendView, id: Seq<char>)
    requires
        !b.is_running(id),
    ensures
        StopView::begun(b, id).action == StopActionView::Done(Ok(())),
        StopView::begun(b, id).backend == b,
{
}

/// A container that is stopped while it runs is asked to end; if it has not ended a while later, it is
/// made to. Then the time is read. Its own process is meant each time, and no other signal is sent.
pub proof fn law_stop_asks_before_it_forces(b: BackendView, id: Seq<char>)
    requires
        b.is_running(id),
    ensures
        ({
            let pid = b.containers[id].pid;
            let begun = StopView::begun(b, id);
            let settling = begun.machine.next(begun.backend, StopEvent::Signalled);
            let killing = settling.machine.next(
                settling.backend,
                StopEvent::Settled { alive: true },
            );
            let ended = settling.machine.next(settling.backend, StopEvent::Settled { alive: false });
            let killed = killing.machine.next(killing.backend, StopEvent::Signalled);
            &&& pid > 0 ==> begun.action == StopActionView::Signal { pid, signal: 15 }
            &&& pid > 0 ==> settling.action == StopActionView::Settle { pid, millis: 100 }
            &&& pid > 0 ==> killing.action == StopActionView::Signal { pid, signal: 9 }
            &&& pid > 0 ==> ended.action == StopActionView::ReadClock
            &&& pid > 0 ==> killed.action == StopActionView::ReadClock
            &&& pid == 0 ==> begun.action == StopActionView::ReadClock
            &&& begun.backend == b && settling.backend == b && killing.backend == b
            &&& ended.backend == b && killed.backend == b
            &&& begun.machine.id == id && settling.machine.id == id && killing.machine.id == id
        }),
{
}

/// A container that still runs when the time has been read has then exited because it was stopped,
/// with the code of the signal that asked it to; what it is, and when it began, stays. Nothing else
/// changes, and it is written down. Who cannot write it down fails, but does not undo it.
pub proof fn law_stop_is_recorded(
    m: StopView,
    b: BackendView,
    now_nanos: i64,
    written: Result<(), WriteFault>,
)
    requires
        b.wf(),
        b.is_running(m.id),
    ensures
        ({
            let timed = m.next(b, StopEvent::Clock(now_nanos));
            let end = timed.machine.next(timed.backend, StopEvent::Written(written));
            let rec = end.backend.containers[m.id];
            let before = b.containers[m.id];
            &&& timed.action == StopActionView::Write(rec)
            &&& rec.state == ContainerState::Exited
            &&& rec.exit_code == 128 + 15
            &&& rec.reason == "stopped"@
            &&& rec.finished_at_nanos == now_nanos
            &&& rec.id == m.id && rec.sandbox == before.sandbox && rec.config == before.config
            &&& rec.created_at_nanos == before.created_at_nanos && rec.started_at_nanos
                == before.started_at_nanos && rec.message == before.message && rec.pid
                == before.pid
            &&& only_differs_at(b, m.id, end.backend)
            &&& end.backend.io == b.io
            &&& end.action is Done
            &&& end.action == StopActionView::Done(Ok(())) <==> written is Ok
        }),
{
    assert(b.containers[m.id].id == m.id);
    let timed = m.next(b, StopEvent::Clock(now_nanos));
    assert(timed.backend.containers.remove(m.id) =~= b.containers.remove(m.id));
}

/// A container that ended by itself meanwhile is left as it ended.
pub proof fn law_stop_leaves_what_has_ended(m: StopView, b: BackendView, now_nanos: i64)
    requires
        !b.is_running(m.id),
    ensures
        m.next(b, StopEvent::Clock(now_nanos)).backend == b,
        m.next(b, StopEvent::Clock(now_nanos)).action == StopActionView::Done(Ok(())),
{
}

} // verus!
