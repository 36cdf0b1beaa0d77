//! Removing a sandbox with everything in it.

use crate::fake::disk::{write_error, DiskView, WriteFault};
use crate::fake::record::{ContainerRecordView, SandboxRecord, SandboxRecordView};
use crate::fake::stop::{
    StopAction, StopActionView, StopContainer, StopEvent, StopRun, StopStep, StopView,
};
use crate::fake::{BackendView, FakeBackend};
use crate::types::{
    BackendError, BackendErrorView, ContainerFilter, ContainerId, SandboxId, SandboxState,
};
use vstd::pervasive::unreached;
use vstd::prelude::*;

verus! {

/// What is being waited for.
#[derive(Clone, Copy, Debug, PartialEq, Eq, Structural)]
pub enum RemovePhase {
    /// That the sandbox was written down as stopped.
    Closing,
    /// That a container stopped.
    Stopping,
    /// That the file of a container was deleted.
    Clearing,
    /// That the file of the sandbox was deleted.
    Deleting,
    /// Nothing more.
    Over,
}

/// A sandbox being removed.
#[derive(Debug)]
pub struct RemoveSandbox {
    id: SandboxId,
    containers: Vec<ContainerId>,
    at: usize,
    stop: Option<StopContainer>,
    phase: RemovePhase,
}

/// Where a [`RemoveSandbox`] stands.
#[verifier::ext_equal]
pub struct RemoveView {
    pub id: Seq<char>,
    /// The containers of the sandbox.
    pub containers: Seq<Seq<char>>,
    /// How many of them have been dealt with.
    pub at: int,
    /// The one that is being stopped.
    pub stop: Option<StopView>,
    pub phase: RemovePhase,
}

impl View for RemoveSandbox {
    type V = RemoveView;

    closed spec fn view(&self) -> RemoveView {
        RemoveView {
            id: self.id@,
            containers: crate::fake::container::names(self.containers@),
            at: self.at as int,
            stop: match self.stop {
                Some(s) => Some(s@),
                None => None,
            },
            phase: self.phase,
        }
    }
}

/// What is to be done next.
#[derive(Debug)]
pub enum RemoveAction {
    WriteSandbox(SandboxRecord),
    /// A step of stopping a container.
    Stop(StopAction),
    /// Delete the container's file; whether it was there does not matter.
    DeleteContainer(ContainerId),
    /// Delete the sandbox's file; whether it was there does not matter.
    DeleteSandbox(SandboxId),
    Done(Result<(), BackendError>),
}

/// What a [`RemoveAction`] asks for.
#[verifier::ext_equal]
pub enum RemoveActionView {
    WriteSandbox(SandboxRecordView),
    Stop(StopActionView),
    DeleteContainer(Seq<char>),
    DeleteSandbox(Seq<char>),
    Done(Result<(), BackendErrorView>),
}

impl View for RemoveAction {
    type V = RemoveActionView;

    open spec fn view(&self) -> RemoveActionView {
        match *self {
            RemoveAction::WriteSandbox(rec) => RemoveActionView::WriteSandbox(rec@),
            RemoveAction::Stop(a) => RemoveActionView::Stop(a@),
            RemoveAction::DeleteContainer(id) => RemoveActionView::DeleteContainer(id@),
            RemoveAction::DeleteSandbox(id) => RemoveActionView::DeleteSandbox(id@),
            RemoveAction::Done(r) => RemoveActionView::Done(crate::fake::stop::outcome(r)),
        }
    }
}

/// What came of it.
#[derive(Debug)]
pub enum RemoveEvent {
    Written(Result<(), WriteFault>),
    Stop(StopEvent),
    Deleted,
}

/// What follows a step: the machine, the backend and the next action.
#[verifier::ext_equal]
pub struct RemoveStep {
    pub machine: RemoveView,
    pub backend: BackendView,
    pub action: RemoveActionView,
}

/// The containers of the sandbox, in order.
pub open spec fn containers_of(b: BackendView, id: Seq<char>) -> Seq<Seq<char>> {
    crate::text_map::sorted(
        crate::text_map::picked(b.containers, |rec: ContainerRecordView| rec.sandbox == id),
    )
}

impl RemoveView {
    /// The events that answer the pending action.
    pub open spec fn awaits(self, event: RemoveEvent) -> bool {
        match self.phase {
            RemovePhase::Closing => event is Written,
            RemovePhase::Stopping => event matches RemoveEvent::Stop(e) && self.stop matches Some(
                s,
            ) && s.awaits(e) && 0 <= self.at < self.containers.len(),
            RemovePhase::Clearing => event is Deleted,
            RemovePhase::Deleting => event is Deleted,
            RemovePhase::Over => false,
        }
    }

    /// How removing a sandbox begins: it is stopped first.
    pub open spec fn begun(b: BackendView, id: Seq<char>) -> RemoveStep {
        if b.sandboxes.dom().contains(id) && b.sandboxes[id].state == SandboxState::Ready {
            let closed = b.stopped_sandbox(id);
            RemoveStep {
                machine: RemoveView::new(id),
                backend: closed,
                action: RemoveActionView::WriteSandbox(closed.sandboxes[id]),
            }
        } else {
            RemoveView::new(id).collected(b)
        }
    }

    /// Before anything has been done.
    pub open spec fn new(id: Seq<char>) -> RemoveView {
        RemoveView {
            id,
            containers: Seq::empty(),
            at: 0,
            stop: None,
            phase: RemovePhase::Closing,
        }
    }

    /// How it goes on after an event that it awaits.
    pub open spec fn next(self, b: BackendView, event: RemoveEvent) -> RemoveStep {
        match event {
            RemoveEvent::Written(w) => match w {
                Ok(_) => self.collected(b),
                Err(f) => self.over(b, Err(crate::fake::disk::write_error_of(f))),
            },
            RemoveEvent::Stop(e) => self.stopping(self.stop->0.next(b, e)),
            RemoveEvent::Deleted => if self.phase == RemovePhase::Clearing {
                self.advanced(b)
            } else {
                self.over(b, Ok(()))
            },
        }
    }

    /// The containers of a sandbox that is known come first.
    pub open spec fn collected(self, b: BackendView) -> RemoveStep {
        if b.sandboxes.dom().contains(self.id) {
            RemoveView { containers: containers_of(b, self.id), at: 0, ..self }.advanced(b)
        } else {
            self.over(b, Ok(()))
        }
    }

    /// Goes on to the next container, and after the last to the sandbox itself.
    pub open spec fn advanced(self, b: BackendView) -> RemoveStep
        decreases self.containers.len() - self.at, 2int,
    {
        if 0 <= self.at < self.containers.len() {
            self.stopping(StopView::begun(b, self.containers[self.at]))
        } else if b.sandboxes.dom().contains(self.id) {
            RemoveStep {
                machine: RemoveView { stop: None, phase: RemovePhase::Deleting, ..self },
                backend: b.drop_sandbox(self.id),
                action: RemoveActionView::DeleteSandbox(self.id),
            }
        } else {
            self.over(b, Ok(()))
        }
    }

    /// After a step of stopping the container in turn.
    pub open spec fn stopping(self, s: StopStep) -> RemoveStep
        decreases self.containers.len() - self.at, 1int,
    {
        match s.action {
            StopActionView::Done(r) => match r {
                Ok(_) => self.cleared(s.backend),
                Err(e) => self.over(s.backend, Err(e)),
            },
            a => RemoveStep {
                machine: RemoveView { stop: Some(s.machine), phase: RemovePhase::Stopping, ..self },
                backend: s.backend,
                action: RemoveActionView::Stop(a),
            },
        }
    }

    /// The container in turn has stopped, and is removed.
    pub open spec fn cleared(self, b: BackendView) -> RemoveStep
        decreases self.containers.len() - self.at, 0int,
    {
        let cid = self.containers[self.at];
        if self.at >= self.containers.len() {
            self.over(b, Ok(()))
        } else if b.is_running(cid) {
            self.over(b, Err(crate::fake::container::still_running(cid)))
        } else if b.containers.dom().contains(cid) {
            RemoveStep {
                machine: RemoveView {
                    at: self.at + 1,
                    stop: None,
                    phase: RemovePhase::Clearing,
                    ..self
                },
                backend: b.drop_container(cid),
                action: RemoveActionView::DeleteContainer(cid),
            }
        } else {
            RemoveView { at: self.at + 1, stop: None, ..self }.advanced(b)
        }
    }

    /// Over, with this outcome.
    pub open spec fn over(self, b: BackendView, r: Result<(), BackendErrorView>) -> RemoveStep {
        RemoveStep {
            machine: RemoveView { stop: None, phase: RemovePhase::Over, ..self },
            backend: b,
            action: RemoveActionView::Done(r),
        }
    }
}

impl RemoveSandbox {
    /// Begins to remove the sandbox.
    pub fn begin(backend: &mut FakeBackend, id: &SandboxId) -> (r: (RemoveSandbox, RemoveAction))
        requires
            old(backend)@.wf(),
        ensures
            final(backend)@.wf(),
            r.0@ == RemoveView::begun(old(backend)@, id@).machine,
            final(backend)@ == RemoveView::begun(old(backend)@, id@).backend,
            r.1@ == RemoveView::begun(old(backend)@, id@).action,
    {
        let mut m = RemoveSandbox {
            id: id.clone(),
            containers: Vec::new(),
            at: 0,
            stop: None,
            phase: RemovePhase::Closing,
        };
        assert(m@.containers =~= Seq::empty());
        match backend.stop_sandbox(id) {
            Some(rec) => (m, RemoveAction::WriteSandbox(rec)),
            None => {
                assert(backend@ =~= old(backend)@);
                let a = m.collect(backend);
                (m, a)
            },
        }
    }

    fn finish(&mut self, r: Result<(), BackendError>) -> (a: RemoveAction)
        ensures
            forall|b: BackendView|
                #![trigger old(self)@.over(b, crate::fake::stop::outcome(r))]
                ({
                    let s = old(self)@.over(b, crate::fake::stop::outcome(r));
                    final(self)@ == s.machine && a@ == s.action
                }),
    {
        self.stop = None;
        self.phase = RemovePhase::Over;
        RemoveAction::Done(r)
    }

    fn collect(&mut self, backend: &mut FakeBackend) -> (a: RemoveAction)
        requires
            old(backend)@.wf(),
        ensures
            final(backend)@.wf(),
            final(self)@ == old(self)@.collected(old(backend)@).machine,
            final(backend)@ == old(self)@.collected(old(backend)@).backend,
            a@ == old(self)@.collected(old(backend)@).action,
    {
        if !backend.sandboxes.contains(self.id.0.as_str()) {
            return self.finish(Ok(()));
        }
        let mut filter = ContainerFilter::default();
        filter.sandbox = Some(self.id.clone());
        self.containers = backend.container_ids(&filter);
        self.at = 0;
        proof {
            let all = |rec: ContainerRecordView|
                crate::fake::container::container_picked(rec, filter@);
            let mine = |rec: ContainerRecordView| rec.sandbox == self@.id;
            assert(all =~= mine);
            assert(self@.containers == containers_of(backend@, self@.id));
        }
        self.advance(backend)
    }

    fn advance(&mut self, backend: &mut FakeBackend) -> (a: RemoveAction)
        requires
            old(backend)@.wf(),
        ensures
            final(backend)@.wf(),
            final(self)@ == old(self)@.advanced(old(backend)@).machine,
            final(backend)@ == old(self)@.advanced(old(backend)@).backend,
            a@ == old(self)@.advanced(old(backend)@).action,
        decreases old(self)@.containers.len() - old(self)@.at, 2int,
    {
        if self.at < self.containers.len() {
            let (s, a) = StopContainer::begin(backend, &self.containers[self.at]);
            self.stopping(backend, s, a)
        } else if backend.sandboxes.contains(self.id.0.as_str()) {
            backend.sandboxes.remove(self.id.0.as_str());
            assert(backend@ =~= old(backend)@.drop_sandbox(self@.id));
            self.stop = None;
            self.phase = RemovePhase::Deleting;
            RemoveAction::DeleteSandbox(self.id.clone())
        } else {
            self.finish(Ok(()))
        }
    }

    fn stopping(
        &mut self,
        backend: &mut FakeBackend,
        s: StopContainer,
        a: StopAction,
    ) -> (r: RemoveAction)
        requires
            old(backend)@.wf(),
            0 <= old(self)@.at < old(self)@.containers.len(),
        ensures
            final(backend)@.wf(),
            ({
                let step = StopStep { machine: s@, backend: old(backend)@, action: a@ };
                let next = old(self)@.stopping(step);
                &&& final(self)@ == next.machine
                &&& final(backend)@ == next.backend
                &&& r@ == next.action
            }),
        decreases old(self)@.containers.len() - old(self)@.at, 1int,
    {
        match a {
            StopAction::Done(Ok(_)) => self.clear(backend),
            StopAction::Done(Err(e)) => self.finish(Err(e)),
            a => {
                self.stop = Some(s);
                self.phase = RemovePhase::Stopping;
                RemoveAction::Stop(a)
            },
        }
    }

    fn clear(&mut self, backend: &mut FakeBackend) -> (a: RemoveAction)
        requires
            old(backend)@.wf(),
            0 <= old(self)@.at < old(self)@.containers.len(),
        ensures
            final(backend)@.wf(),
            final(self)@ == old(self)@.cleared(old(backend)@).machine,
            final(backend)@ == old(self)@.cleared(old(backend)@).backend,
            a@ == old(self)@.cleared(old(backend)@).action,
        decreases old(self)@.containers.len() - old(self)@.at, 0int,
    {
        assert(crate::fake::container::names(self.containers@).len() == self.containers.len());
        let cid = self.containers[self.at].clone();
        match backend.remove_container(&cid) {
            Err(e) => self.finish(Err(e)),
            Ok(known) => {
                self.at = self.at + 1;
                self.stop = None;
                if known {
                    self.phase = RemovePhase::Clearing;
                    RemoveAction::DeleteContainer(cid)
                } else {
                    self.advance(backend)
                }
            },
        }
    }

    /// Goes on after an event.
    pub fn next(&mut self, backend: &mut FakeBackend, event: RemoveEvent) -> (r: RemoveAction)
        requires
            old(backend)@.wf(),
            old(self)@.awaits(event),
        ensures
            final(backend)@.wf(),
            final(self)@ == old(self)@.next(old(backend)@, event).machine,
            final(backend)@ == old(self)@.next(old(backend)@, event).backend,
            r@ == old(self)@.next(old(backend)@, event).action,
    {
        match (self.phase, event) {
            (RemovePhase::Closing, RemoveEvent::Written(w)) => match w {
                Ok(_) => self.collect(backend),
                Err(f) => self.finish(Err(write_error(f))),
            },
            (RemovePhase::Stopping, RemoveEvent::Stop(e)) => match self.stop.take() {
                Some(mut s) => {
                    let a = s.next(backend, e);
                    self.stopping(backend, s, a)
                },
                None => unreached(),
            },
            (RemovePhase::Clearing, RemoveEvent::Deleted) => self.advance(backend),
            (RemovePhase::Deleting, RemoveEvent::Deleted) => self.finish(Ok(())),
            _ => unreached(),
        }
    }
}

/// A sandbox being removed, and what the files say meanwhile.
#[verifier::ext_equal]
pub struct RemoveRun {
    pub step: RemoveStep,
    pub disk: DiskView,
}

impl RemoveRun {
    /// After the pending action was done and gave the event.
    pub open spec fn after(self, event: RemoveEvent) -> RemoveRun {
        RemoveRun {
            step: self.step.machine.next(self.step.backend, event),
            disk: match (self.step.action, event) {
                (
                    RemoveActionView::WriteSandbox(rec),
                    RemoveEvent::Written(Ok(_)),
                ) => self.disk.wrote_sandbox(rec),
                (
                    RemoveActionView::Stop(StopActionView::Write(rec)),
                    RemoveEvent::Stop(StopEvent::Written(Ok(_))),
                ) => self.disk.wrote_container(rec),
                (
                    RemoveActionView::DeleteContainer(id),
                    RemoveEvent::Deleted,
                ) => self.disk.dropped_container(id),
                (
                    RemoveActionView::DeleteSandbox(id),
                    RemoveEvent::Deleted,
                ) => self.disk.dropped_sandbox(id),
                _ => self.disk,
            },
        }
    }

    /// After all of the events.
    pub open spec fn after_all(self, events: Seq<RemoveEvent>) -> RemoveRun
        decreases events.len(),
    {
        if events.len() == 0 {
            self
        } else {
            self.after(events[0]).after_all(events.drop_first())
        }
    }

    /// Whether each of the events answers what was pending.
    pub open spec fn answered_by(self, events: Seq<RemoveEvent>) -> bool
        decreases events.len(),
    {
        events.len() > 0 ==> self.step.machine.awaits(events[0]) && self.after(
            events[0],
        ).answered_by(events.drop_first())
    }

    /// What holds on the way, for a sandbox of `b0`.
    spec fn on_the_way(self, b0: BackendView, id: Seq<char>, clean: bool) -> bool {
        let m = self.step.machine;
        let b = self.step.backend;
        let list = containers_of(b0, id);
        &&& m.id == id
        &&& m.phase != RemovePhase::Over ==> b0.sandboxes.dom().contains(id)
        &&& match m.phase {
            RemovePhase::Closing => {
                &&& b == b0.stopped_sandbox(id)
                &&& self.step.action == RemoveActionView::WriteSandbox(b.sandboxes[id])
                &&& self.disk == b0.disk()
            },
            RemovePhase::Stopping => {
                &&& m.containers == list
                &&& 0 <= m.at < list.len()
                &&& m.stop matches Some(s) && self.step.action matches RemoveActionView::Stop(a)
                    && a !is Done && (StopRun {
                    step: StopStep { machine: s, backend: b, action: a },
                    disk: self.disk,
                }).on_the_way(emptied(b0, id, m.at), list[m.at])
            },
            RemovePhase::Clearing => {
                &&& m.containers == list
                &&& 1 <= m.at <= list.len()
                &&& b == emptied(b0, id, m.at)
                &&& self.step.action == RemoveActionView::DeleteContainer(list[m.at - 1])
                &&& self.disk.dropped_container(list[m.at - 1]) == b.disk()
            },
            RemovePhase::Deleting => {
                &&& b == without_sandbox(b0, id)
                &&& self.step.action == RemoveActionView::DeleteSandbox(id)
                &&& self.disk.dropped_sandbox(id) == b.disk()
            },
            RemovePhase::Over => self.step.action matches RemoveActionView::Done(r) && (clean
                ==> r is Ok) && (r is Ok ==> b == without_sandbox(b0, id) && self.disk == b.disk()),
        }
    }
}

/// The backend with the sandbox stopped and its first containers removed.
spec fn emptied(b0: BackendView, id: Seq<char>, n: int) -> BackendView {
    let gone = containers_of(b0, id).take(n).to_set();
    BackendView {
        sandboxes: b0.stopped_sandbox(id).sandboxes,
        containers: b0.containers.remove_keys(gone),
        io: b0.io.remove_keys(gone),
        ..b0
    }
}

/// The backend without the sandbox and without its containers, if it was known.
pub open spec fn without_sandbox(b0: BackendView, id: Seq<char>) -> BackendView {
    if b0.sandboxes.dom().contains(id) {
        let gone = crate::text_map::picked(
            b0.containers,
            |rec: ContainerRecordView| rec.sandbox == id,
        );
        BackendView {
            sandboxes: b0.sandboxes.remove(id),
            containers: b0.containers.remove_keys(gone),
            io: b0.io.remove_keys(gone),
            ..b0
        }
    } else {
        b0
    }
}

/// Whether every write succeeded.
pub open spec fn all_written(events: Seq<RemoveEvent>) -> bool {
    forall|i: int|
        0 <= i < events.len() ==> match #[trigger] events[i] {
            RemoveEvent::Written(w) => w is Ok,
            RemoveEvent::Stop(StopEvent::Written(w)) => w is Ok,
            _ => true,
        }
}

/// To remove a sandbox is to remove its containers, running or not, and nothing else; it fails only
/// where a file cannot be written, and once it has succeeded the files agree.
pub proof fn law_remove_takes_the_containers_along(
    b0: BackendView,
    id: Seq<char>,
    events: Seq<RemoveEvent>,
)
    requires
        b0.wf(),
        (RemoveRun { step: RemoveView::begun(b0, id), disk: b0.disk() }).answered_by(events),
    ensures
        ({
            let end = (RemoveRun { step: RemoveView::begun(b0, id), disk: b0.disk() }).after_all(
                events,
            );
            end.step.action matches RemoveActionView::Done(r) ==> {
                &&& all_written(events) ==> r is Ok
                &&& r is Ok ==> end.step.backend == without_sandbox(b0, id)
                &&& r is Ok ==> end.disk == end.step.backend.disk()
            }
        }),
{
    let start = RemoveRun { step: RemoveView::begun(b0, id), disk: b0.disk() };
    let clean = all_written(events);
    if b0.sandboxes.dom().contains(id) && b0.sandboxes[id].state == SandboxState::Ready {
    } else {
        if b0.sandboxes.dom().contains(id) {
            assert(b0.sandboxes[id].id == id);
        }
        assert(b0 =~= b0.stopped_sandbox(id));
        lemma_collected(RemoveView::new(id), b0, b0, id, b0.disk(), clean);
    }
    lemma_on_the_way(start, b0, id, events, clean);
}

proof fn lemma_on_the_way(
    run: RemoveRun,
    b0: BackendView,
    id: Seq<char>,
    events: Seq<RemoveEvent>,
    clean: bool,
)
    requires
        b0.wf(),
        run.on_the_way(b0, id, clean),
        run.answered_by(events),
        clean ==> all_written(events),
    ensures
        run.after_all(events).on_the_way(b0, id, clean),
    decreases events.len(),
{
    if events.len() > 0 {
        let next = run.after(events[0]);
        lemma_stays_on_the_way(run, b0, id, events[0], clean);
        assert(clean ==> all_written(events.drop_first())) by {
            if clean {
                assert forall|i: int| 0 <= i < events.drop_first().len() implies match #[trigger]
                    events.drop_first()[i] {
                    RemoveEvent::Written(w) => w is Ok,
                    RemoveEvent::Stop(StopEvent::Written(w)) => w is Ok,
                    _ => true,
                } by {
                    assert(events.drop_first()[i] == events[i + 1]);
                }
            }
        }
        lemma_on_the_way(next, b0, id, events.drop_first(), clean);
    }
}

proof fn lemma_stays_on_the_way(
    run: RemoveRun,
    b0: BackendView,
    id: Seq<char>,
    event: RemoveEvent,
    clean: bool,
)
    requires
        b0.wf(),
        run.on_the_way(b0, id, clean),
        run.step.machine.awaits(event),
        clean ==> match event {
            RemoveEvent::Written(w) => w is Ok,
            RemoveEvent::Stop(StopEvent::Written(w)) => w is Ok,
            _ => true,
        },
    ensures
        run.after(event).on_the_way(b0, id, clean),
{
    let m = run.step.machine;
    let b = run.step.backend;
    let list = containers_of(b0, id);
    let next = run.after(event);
    match event {
        RemoveEvent::Written(w) => {
            if w is Ok {
                assert(b0.sandboxes[id].id == id);
                assert(next.disk =~= b.disk());
                lemma_collected(m, b, b0, id, next.disk, clean);
            }
        },
        RemoveEvent::Stop(e) => {
            let base = emptied(b0, id, m.at);
            lemma_emptied(b0, id, m.at);
            let sub = StopRun {
                step: StopStep {
                    machine: m.stop->0,
                    backend: b,
                    action: run.step.action->Stop_0,
                },
                disk: run.disk,
            };
            crate::fake::stop::lemma_stays_on_the_way(sub, base, list[m.at], e);
            let s = sub.after(e);
            assert(s.disk =~= next.disk);
            if s.step.action == StopActionView::Done(Ok(())) {
                lemma_cleared(m, s.step.backend, b0, id, s.disk, clean);
            }
        },
        RemoveEvent::Deleted => {
            if m.phase == RemovePhase::Clearing {
                assert(next.disk == b.disk());
                lemma_advanced(m, b0, id, next.disk, clean);
            }
        },
    }
}

proof fn lemma_collected(
    m: RemoveView,
    b: BackendView,
    b0: BackendView,
    id: Seq<char>,
    disk: DiskView,
    clean: bool,
)
    requires
        b0.wf(),
        m.id == id,
        b == b0.stopped_sandbox(id),
        disk == b.disk(),
    ensures
        (RemoveRun { step: m.collected(b), disk }).on_the_way(b0, id, clean),
{
    if b0.sandboxes.dom().contains(id) {
        let list = containers_of(b0, id);
        assert(list.take(0).to_set() =~= Set::empty());
        assert(b =~= emptied(b0, id, 0));
        lemma_advanced(
            RemoveView { containers: list, at: 0, ..m },
            b0,
            id,
            disk,
            clean,
        );
    }
}

/// What is there when some of the containers have been removed.
proof fn lemma_emptied(b0: BackendView, id: Seq<char>, n: int)
    requires
        b0.wf(),
        b0.sandboxes.dom().contains(id),
        0 <= n <= containers_of(b0, id).len(),
    ensures
        emptied(b0, id, n).wf(),
        n < containers_of(b0, id).len() ==> {
            let cid = containers_of(b0, id)[n];
            &&& emptied(b0, id, n).containers.dom().contains(cid)
            &&& emptied(b0, id, n).drop_container(cid) == emptied(b0, id, n + 1)
        },
        n == containers_of(b0, id).len() ==> emptied(b0, id, n).drop_sandbox(id)
            == without_sandbox(b0, id),
{
    let p = |rec: ContainerRecordView| rec.sandbox == id;
    let gone = crate::text_map::picked(b0.containers, p);
    let list = containers_of(b0, id);
    crate::text_map::lemma_sorted_set(gone);
    crate::text_map::lemma_ascending_distinct(list);
    let b = emptied(b0, id, n);
    assert(b.containers.dom() =~= b0.containers.dom().difference(list.take(n).to_set()));
    assert forall|k: Seq<char>| #[trigger] b.containers.dom().contains(k) implies b.containers[k].id
        == k by {
        assert(b0.containers.dom().contains(k));
    }
    assert forall|k: Seq<char>| #[trigger] b.sandboxes.dom().contains(k) implies b.sandboxes[k].id
        == k by {
        assert(b0.sandboxes.dom().contains(k));
    }
    if n < list.len() {
        let cid = list[n];
        assert(list.to_set().contains(cid));
        assert(!list.take(n).contains(cid)) by {
            if list.take(n).contains(cid) {
                let i = list.take(n).index_of(cid);
                assert(list[i] == cid);
            }
        }
        assert(list.take(n + 1) =~= list.take(n).push(cid));
        assert(list.take(n + 1).to_set() =~= list.take(n).to_set().insert(cid)) by {
            assert forall|k: Seq<char>| #[trigger] list.take(n + 1).contains(k) <==> list.take(
                n,
            ).contains(k) || k == cid by {
                if list.take(n).contains(k) {
                    assert(list.take(n + 1)[list.take(n).index_of(k)] == k);
                }
                assert(list.take(n + 1)[n] == cid);
            }
        }
        assert(b.drop_container(cid) =~= emptied(b0, id, n + 1));
    } else {
        assert(list.take(n) =~= list);
        assert(b0.sandboxes[id].id == id);
        assert(b.drop_sandbox(id) =~= without_sandbox(b0, id));
    }
}

proof fn lemma_advanced(
    m: RemoveView,
    b0: BackendView,
    id: Seq<char>,
    disk: DiskView,
    clean: bool,
)
    requires
        b0.wf(),
        b0.sandboxes.dom().contains(id),
        m.id == id,
        m.containers == containers_of(b0, id),
        0 <= m.at <= m.containers.len(),
        disk == emptied(b0, id, m.at).disk(),
    ensures
        (RemoveRun { step: m.advanced(emptied(b0, id, m.at)), disk }).on_the_way(b0, id, clean),
{
    let b = emptied(b0, id, m.at);
    lemma_emptied(b0, id, m.at);
    if m.at < m.containers.len() {
        let cid = m.containers[m.at];
        if !b.is_running(cid) {
            assert(disk.dropped_container(cid) =~= b.drop_container(cid).disk());
            lemma_cleared(m, b, b0, id, disk, clean);
        }
    } else {
        assert(disk.dropped_sandbox(id) =~= b.drop_sandbox(id).disk());
    }
}

proof fn lemma_cleared(
    m: RemoveView,
    b: BackendView,
    b0: BackendView,
    id: Seq<char>,
    disk: DiskView,
    clean: bool,
)
    requires
        b0.wf(),
        b0.sandboxes.dom().contains(id),
        m.id == id,
        m.containers == containers_of(b0, id),
        0 <= m.at < m.containers.len(),
        !b.is_running(m.containers[m.at]),
        ({
            let cid = m.containers[m.at];
            let base = emptied(b0, id, m.at);
            b == base || exists|rec: ContainerRecordView|
                #![trigger base.put_container(rec)]
                rec.id == cid && b == base.put_container(rec)
        }),
        disk == b.disk(),
    ensures
        (RemoveRun { step: m.cleared(b), disk }).on_the_way(b0, id, clean),
{
    let cid = m.containers[m.at];
    let base = emptied(b0, id, m.at);
    lemma_emptied(b0, id, m.at);
    assert(b.drop_container(cid) =~= base.drop_container(cid));
    assert(disk.dropped_container(cid) =~= b.drop_container(cid).disk());
}

/// To remove a sandbox that is not known does nothing and succeeds.
pub proof fn law_remove_is_idempotent(b: BackendView, id: Seq<char>)
    requires
        !b.sandboxes.dom().contains(id),
    ensures
        RemoveView::begun(b, id).action == RemoveActionView::Done(Ok(())),
        RemoveView::begun(b, id).backend == b,
{
}

/// Removing a sandbox removes its record and those of the containers in it, and gives up their
/// streams; the containers of other sandboxes, the other sandboxes and the images stay.
pub proof fn law_only_the_sandbox_is_removed(b: BackendView, id: Seq<char>, other: Seq<char>)
    requires
        b.sandboxes.dom().contains(id),
    ensures
        ({
            let after = without_sandbox(b, id);
            &&& !after.sandboxes.dom().contains(id)
            &&& other != id ==> (after.sandboxes.dom().contains(other) <==> b.sandboxes.dom().contains(
                other,
            )) && after.sandboxes[other] == b.sandboxes[other]
            &&& after.containers.dom().contains(other) <==> b.containers.dom().contains(other)
                && b.containers[other].sandbox != id
            &&& after.containers.dom().contains(other) ==> after.containers[other]
                == b.containers[other]
            &&& b.containers.dom().contains(other) && b.containers[other].sandbox == id
                ==> !after.io.dom().contains(other)
            &&& b.containers.dom().contains(other) && b.containers[other].sandbox != id ==> (
            after.io.dom().contains(other) <==> b.io.dom().contains(other))
            &&& after.io.dom().contains(other) ==> after.io[other] == b.io[other]
            &&& after.images == b.images && after.state_root == b.state_root
        }),
{
}

/// The containers that are removed along are those in the sandbox, each once, in the order of their
/// names.
pub proof fn law_containers_of_the_sandbox_are_found(b: BackendView, id: Seq<char>, k: Seq<char>)
    requires
        b.wf(),
    ensures
        containers_of(b, id).contains(k) <==> b.containers.dom().contains(k) && b.containers[k].sandbox
            == id,
        containers_of(b, id).no_duplicates(),
        crate::text_map::ascending(containers_of(b, id)),
{
    let set = crate::text_map::picked(b.containers, |rec: ContainerRecordView| rec.sandbox == id);
    assert(set.finite()) by {
        vstd::set_lib::lemma_len_subset(set, b.containers.dom());
    }
    crate::text_map::lemma_sorted_set(set);
    crate::text_map::lemma_ascending_distinct(containers_of(b, id));
    assert(containers_of(b, id).contains(k) <==> containers_of(b, id).to_set().contains(k));
}

/// A sandbox that is Ready is closed, and that is written, before anything of it is removed.
pub proof fn law_removal_closes_first(b: BackendView, id: Seq<char>)
    requires
        b.wf(),
        b.sandboxes.dom().contains(id),
        b.sandboxes[id].state == SandboxState::Ready,
    ensures
        ({
            let begun = RemoveView::begun(b, id);
            &&& begun.action matches RemoveActionView::WriteSandbox(rec) && rec.id == id
                && rec.state == SandboxState::NotReady && rec.config == b.sandboxes[id].config
            &&& begun.backend.sandboxes[id].state == SandboxState::NotReady
            &&& begun.backend.containers == b.containers
            &&& crate::fake::container::create_refusal(begun.backend, id) is Some
        }),
{
    assert(b.sandboxes[id].id == id);
}

} // verus!
