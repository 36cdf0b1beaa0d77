//! What holds however the backend was used: the files say what it holds, and whoever opens them again
//! finds it.

use crate::fake::disk::DiskView;
use crate::fake::record::{ContainerRecordView, ImageDiskRecordView, SandboxRecordView};
use crate::fake::remove::{RemoveActionView, RemoveEvent, RemovePhase, RemoveRun, RemoveView};
use crate::fake::start::{StartActionView, StartEvent, StartPhase, StartRun, StartView};
use crate::fake::stop::{StopActionView, StopEvent, StopPhase, StopRun, StopView};
use crate::fake::{BackendView, ContainerIo, FoundContainer};
use crate::types::{
    ContainerConfigView, ContainerFilterView, ContainerState, SandboxConfigView, SandboxFilterView,
    SandboxState,
};
use vstd::prelude::*;

verus! {

/// The backend, and what the files say.
#[verifier::ext_equal]
pub struct Held {
    pub backend: BackendView,
    pub disk: DiskView,
}

/// The end of a container's process, noted by whoever waits for it.
pub struct Exit {
    pub id: Seq<char>,
    pub exit_code: i32,
    pub reason: Seq<char>,
    pub now_nanos: i64,
}

/// What happens while a call goes through its steps: an event that answers what is pending, or the
/// end of some container's process.
pub enum Moment<E> {
    Event(E),
    Exited(Exit),
}

/// A call of the backend that came to its end, and what happened meanwhile; or that the backend was
/// dropped, or its process killed, between two calls, and its files opened again. Calls that only
/// report change nothing and are not told of.
pub enum Deed {
    SandboxRun { config: SandboxConfigView, stamp_nanos: i64, count: u64, now_nanos: i64 },
    SandboxStopped { id: Seq<char> },
    SandboxRemoved { id: Seq<char>, removal: Seq<Moment<RemoveEvent>> },
    ContainerCreated {
        sandbox: Seq<char>,
        cfg: ContainerConfigView,
        stamp_nanos: i64,
        count: u64,
        now_nanos: i64,
    },
    ContainerStarted { id: Seq<char>, start: Seq<Moment<StartEvent>> },
    ContainerStopped { id: Seq<char>, stop: Seq<Moment<StopEvent>> },
    ContainerRemoved { id: Seq<char> },
    ContainerExited(Exit),
    ImagePulled { image_ref: Seq<char> },
    ImageRemoved { image_ref: Seq<char> },
    Reopened {
        state_root: Seq<char>,
        sandboxes: Seq<SandboxRecordView>,
        found: Seq<FoundContainer>,
        images: Seq<ImageDiskRecordView>,
    },
}

/// Whether these are the records that the files hold, each once, in whatever order they are read.
pub open spec fn read_from(
    disk: DiskView,
    sandboxes: Seq<SandboxRecordView>,
    found: Seq<FoundContainer>,
    images: Seq<ImageDiskRecordView>,
) -> bool {
    &&& crate::text_map::enumerates(sandboxes, |r: SandboxRecordView| r.id, disk.sandboxes)
    &&& crate::text_map::enumerates(
        found.map_values(|f: FoundContainer| f.rec@),
        |r: ContainerRecordView| r.id,
        disk.containers,
    )
    &&& crate::text_map::enumerates(images, |r: ImageDiskRecordView| r.id, disk.images)
    &&& forall|i: int, j: int|
        #![trigger found[i], found[j]]
        0 <= i < j < found.len() ==> found[i].rec@.id != found[j].rec@.id
}

/// A file that is to be written or deleted.
pub enum FileOp {
    WriteSandbox(SandboxRecordView),
    WriteContainer(ContainerRecordView),
    DeleteSandbox(Seq<char>),
    DeleteContainer(Seq<char>),
}

/// The files once the one that is owed, if any, has been written or deleted.
pub open spec fn paid(disk: DiskView, owed: Option<FileOp>) -> DiskView {
    match owed {
        Some(FileOp::WriteSandbox(rec)) => disk.wrote_sandbox(rec),
        Some(FileOp::WriteContainer(rec)) => disk.wrote_container(rec),
        Some(FileOp::DeleteSandbox(id)) => disk.dropped_sandbox(id),
        Some(FileOp::DeleteContainer(id)) => disk.dropped_container(id),
        None => disk,
    }
}

/// After the files of the containers were written, one after the other.
pub open spec fn wrote_all(disk: DiskView, recs: Seq<ContainerRecordView>) -> DiskView
    decreases recs.len(),
{
    if recs.len() == 0 {
        disk
    } else {
        wrote_all(disk, recs.drop_last()).wrote_container(recs.last())
    }
}

impl Held {
    /// The files say what the backend holds, and every image stands under the name that its
    /// reference gives it.
    pub open spec fn in_step(self) -> bool {
        &&& self.backend.wf()
        &&& crate::fake::image::images_named_by_ref(self.backend)
        &&& self.disk == self.backend.disk()
    }

    /// The files say what the backend holds once the one that is owed has been written or deleted; and
    /// one that is to be written is there already, with an earlier record.
    pub open spec fn owes_only(self, owed: Option<FileOp>) -> bool {
        &&& (Held { backend: self.backend, disk: paid(self.disk, owed) }).in_step()
        &&& owed matches Some(FileOp::WriteSandbox(rec)) ==> self.disk.sandboxes.dom().contains(
            rec.id,
        )
        &&& owed matches Some(FileOp::WriteContainer(rec)) ==> self.disk.containers.dom().contains(
            rec.id,
        )
    }

    /// After a process ended, and the record was written where it changed.
    pub open spec fn exited(self, e: Exit) -> Held {
        let b = self.backend.exited_container(e.id, e.exit_code, e.reason, e.now_nanos);
        Held {
            backend: b,
            disk: if self.backend.is_running(e.id) {
                self.disk.wrote_container(b.containers[e.id])
            } else {
                self.disk
            },
        }
    }

    /// After a call, with every file written or deleted that it asked for.
    pub open spec fn after(self, deed: Deed) -> Held {
        let b = self.backend;
        match deed {
            Deed::SandboxRun { config, stamp_nanos, count, now_nanos } => {
                let rec = crate::fake::sandbox::fresh_sandbox(config, stamp_nanos, count, now_nanos);
                Held { backend: b.put_sandbox(rec), disk: self.disk.wrote_sandbox(rec) }
            },
            Deed::SandboxStopped { id } => Held {
                backend: b.stopped_sandbox(id),
                disk: if b.sandboxes.dom().contains(id) && b.sandboxes[id].state
                    == SandboxState::Ready {
                    self.disk.wrote_sandbox(b.stopped_sandbox(id).sandboxes[id])
                } else {
                    self.disk
                },
            },
            Deed::SandboxRemoved { id, removal: moments } => removing(
                RemoveRun { step: RemoveView::begun(b, id), disk: self.disk },
                moments,
            ).held(),
            Deed::ContainerCreated { sandbox, cfg, stamp_nanos, count, now_nanos } => {
                if crate::fake::container::create_refusal(b, sandbox) is Some {
                    self
                } else {
                    let rec = crate::fake::container::fresh_container(
                        sandbox,
                        cfg,
                        stamp_nanos,
                        count,
                        now_nanos,
                    );
                    Held { backend: b.put_container(rec), disk: self.disk.wrote_container(rec) }
                }
            },
            Deed::ContainerStarted { id, start: moments } => match StartView::begun(b, id) {
                Ok(step) => starting(StartRun { step, disk: self.disk }, moments).held(),
                Err(_) => self,
            },
            Deed::ContainerStopped { id, stop: moments } => stopping(
                StopRun { step: StopView::begun(b, id), disk: self.disk },
                moments,
            ).held(),
            Deed::ContainerRemoved { id } => if b.is_running(id)
                || !b.containers.dom().contains(id) {
                self
            } else {
                Held { backend: b.drop_container(id), disk: self.disk.dropped_container(id) }
            },
            Deed::ContainerExited(e) => self.exited(e),
            Deed::ImagePulled { image_ref } => {
                if crate::fake::image::is_image_ref(image_ref) {
                    let rec = crate::fake::image::pulled_record(
                        image_ref,
                        crate::fake::image::blake3_digest(vstd::utf8::encode_utf8(image_ref)),
                    );
                    Held { backend: b.put_image(rec), disk: self.disk.wrote_image(rec) }
                } else {
                    self
                }
            },
            Deed::ImageRemoved { image_ref } => match b.find_image(image_ref) {
                Some(id) => if b.find_user(image_ref) is Some {
                    self
                } else {
                    Held { backend: b.drop_image(id), disk: self.disk.dropped_image(id) }
                },
                None => self,
            },
            Deed::Reopened { state_root, sandboxes, found, images } => Held {
                backend: crate::fake::opened(state_root, sandboxes, found, images),
                disk: wrote_all(self.disk, crate::fake::corrections(found)),
            },
        }
    }

    /// Whether the call can go like that: each event answers what is pending, no write fails, and the
    /// call comes to its end. Processes may end at any moment.
    pub open spec fn allows(self, deed: Deed) -> bool {
        let b = self.backend;
        match deed {
            Deed::SandboxRemoved { id, removal: moments } => {
                let run = RemoveRun { step: RemoveView::begun(b, id), disk: self.disk };
                removes_by(run, moments) && removing(run, moments).step.action is Done
            },
            Deed::ContainerStarted { id, start: moments } => match StartView::begun(b, id) {
                Ok(step) => {
                    let run = StartRun { step, disk: self.disk };
                    starts_by(run, moments) && starting(run, moments).step.action is Done
                },
                Err(_) => true,
            },
            Deed::ContainerStopped { id, stop: moments } => {
                let run = StopRun { step: StopView::begun(b, id), disk: self.disk };
                stops_by(run, moments) && stopping(run, moments).step.action is Done
            },
            Deed::Reopened { sandboxes, found, images, .. } => read_from(
                self.disk,
                sandboxes,
                found,
                images,
            ),
            _ => true,
        }
    }

    /// After all of the calls.
    pub open spec fn after_all(self, deeds: Seq<Deed>) -> Held
        decreases deeds.len(),
    {
        if deeds.len() == 0 {
            self
        } else {
            self.after(deeds[0]).after_all(deeds.drop_first())
        }
    }

    /// Whether the calls can go like that.
    pub open spec fn allows_all(self, deeds: Seq<Deed>) -> bool
        decreases deeds.len(),
    {
        deeds.len() > 0 ==> self.allows(deeds[0]) && self.after(deeds[0]).allows_all(
            deeds.drop_first(),
        )
    }
}

impl StartRun {
    /// The backend and the files in the middle of it.
    pub open spec fn held(self) -> Held {
        Held { backend: self.step.backend, disk: self.disk }
    }

    /// The file that is to be written.
    pub open spec fn owed(self) -> Option<FileOp> {
        match self.step.action {
            StartActionView::Write(rec) => Some(FileOp::WriteContainer(rec)),
            _ => None,
        }
    }

    spec fn due_in_step(self) -> bool {
        let phase = self.step.machine.phase;
        &&& self.held().owes_only(self.owed())
        &&& self.step.action is Write <==> phase == StartPhase::Intending || phase
            == StartPhase::FailWriting || phase == StartPhase::Noting
        &&& self.step.action matches StartActionView::Write(rec) ==> rec.id == self.step.machine.id
    }
}

/// Starting a container, after a moment.
pub open spec fn started_on(run: StartRun, moment: Moment<StartEvent>) -> StartRun {
    match moment {
        Moment::Event(e) => run.after(e),
        Moment::Exited(x) => StartRun {
            step: crate::fake::start::StartStep { backend: run.held().exited(x).backend, ..run.step },
            disk: run.held().exited(x).disk,
        },
    }
}

/// Starting a container, after all of the moments.
pub open spec fn starting(run: StartRun, moments: Seq<Moment<StartEvent>>) -> StartRun
    decreases moments.len(),
{
    if moments.len() == 0 {
        run
    } else {
        starting(started_on(run, moments[0]), moments.drop_first())
    }
}

/// Whether starting a container can go like that. Nobody waits for its own process before the
/// record that tells of it has been written.
pub open spec fn starts_by(run: StartRun, moments: Seq<Moment<StartEvent>>) -> bool
    decreases moments.len(),
{
    moments.len() > 0 ==> (match moments[0] {
        Moment::Event(e) => run.step.machine.awaits(e) && !(e matches StartEvent::Written(Err(_))),
        Moment::Exited(x) => !(run.step.action is Write) || x.id != run.step.machine.id,
    }) && starts_by(started_on(run, moments[0]), moments.drop_first())
}

impl StopRun {
    /// The backend and the files in the middle of it.
    pub open spec fn held(self) -> Held {
        Held { backend: self.step.backend, disk: self.disk }
    }

    /// The file that is to be written.
    pub open spec fn owed(self) -> Option<FileOp> {
        match self.step.action {
            StopActionView::Write(rec) => Some(FileOp::WriteContainer(rec)),
            _ => None,
        }
    }

    spec fn due_in_step(self) -> bool {
        &&& self.held().owes_only(self.owed())
        &&& self.step.action is Write <==> self.step.machine.phase == StopPhase::Writing
        &&& self.step.action matches StopActionView::Write(rec) ==> rec.state
            == ContainerState::Exited
    }
}

/// Stopping a container, after a moment.
pub open spec fn stopped_on(run: StopRun, moment: Moment<StopEvent>) -> StopRun {
    match moment {
        Moment::Event(e) => run.after(e),
        Moment::Exited(x) => StopRun {
            step: crate::fake::stop::StopStep { backend: run.held().exited(x).backend, ..run.step },
            disk: run.held().exited(x).disk,
        },
    }
}

/// Stopping a container, after all of the moments.
pub open spec fn stopping(run: StopRun, moments: Seq<Moment<StopEvent>>) -> StopRun
    decreases moments.len(),
{
    if moments.len() == 0 {
        run
    } else {
        stopping(stopped_on(run, moments[0]), moments.drop_first())
    }
}

/// Whether stopping a container can go like that.
pub open spec fn stops_by(run: StopRun, moments: Seq<Moment<StopEvent>>) -> bool
    decreases moments.len(),
{
    moments.len() > 0 ==> (match moments[0] {
        Moment::Event(e) => run.step.machine.awaits(e) && !(e matches StopEvent::Written(Err(_))),
        Moment::Exited(_) => true,
    }) && stops_by(stopped_on(run, moments[0]), moments.drop_first())
}

impl RemoveRun {
    /// The backend and the files in the middle of it.
    pub open spec fn held(self) -> Held {
        Held { backend: self.step.backend, disk: self.disk }
    }

    /// The file that is to be written or deleted.
    pub open spec fn owed(self) -> Option<FileOp> {
        match self.step.action {
            RemoveActionView::WriteSandbox(rec) => Some(FileOp::WriteSandbox(rec)),
            RemoveActionView::Stop(StopActionView::Write(rec)) => Some(FileOp::WriteContainer(rec)),
            RemoveActionView::DeleteContainer(id) => Some(FileOp::DeleteContainer(id)),
            RemoveActionView::DeleteSandbox(id) => Some(FileOp::DeleteSandbox(id)),
            _ => None,
        }
    }

    spec fn due_in_step(self) -> bool {
        let m = self.step.machine;
        &&& self.held().owes_only(self.owed())
        &&& match m.phase {
            RemovePhase::Closing => self.step.action is WriteSandbox,
            RemovePhase::Stopping => self.step.action matches RemoveActionView::Stop(a) && m.stop
                matches Some(s) && (a is Write <==> s.phase == StopPhase::Writing) && (a
                matches StopActionView::Write(rec) ==> rec.state == ContainerState::Exited),
            RemovePhase::Clearing => self.step.action is DeleteContainer,
            RemovePhase::Deleting => self.step.action is DeleteSandbox,
            RemovePhase::Over => self.step.action is Done,
        }
    }
}

/// Removing a sandbox, after a moment.
pub open spec fn removed_on(run: RemoveRun, moment: Moment<RemoveEvent>) -> RemoveRun {
    match moment {
        Moment::Event(e) => run.after(e),
        Moment::Exited(x) => RemoveRun {
            step: crate::fake::remove::RemoveStep {
                backend: run.held().exited(x).backend,
                ..run.step
            },
            disk: run.held().exited(x).disk,
        },
    }
}

/// Removing a sandbox, after all of the moments.
pub open spec fn removing(run: RemoveRun, moments: Seq<Moment<RemoveEvent>>) -> RemoveRun
    decreases moments.len(),
{
    if moments.len() == 0 {
        run
    } else {
        removing(removed_on(run, moments[0]), moments.drop_first())
    }
}

/// Whether the event tells of a write that failed.
pub open spec fn tells_of_a_failed_write(e: RemoveEvent) -> bool {
    match e {
        RemoveEvent::Written(w) => w is Err,
        RemoveEvent::Stop(StopEvent::Written(w)) => w is Err,
        _ => false,
    }
}

/// Whether removing a sandbox can go like that.
pub open spec fn removes_by(run: RemoveRun, moments: Seq<Moment<RemoveEvent>>) -> bool
    decreases moments.len(),
{
    moments.len() > 0 ==> (match moments[0] {
        Moment::Event(e) => run.step.machine.awaits(e) && !tells_of_a_failed_write(e),
        Moment::Exited(_) => true,
    }) && removes_by(removed_on(run, moments[0]), moments.drop_first())
}

proof fn lemma_put_container(h: Held, rec: ContainerRecordView)
    requires
        h.in_step(),
    ensures
        (Held { backend: h.backend.put_container(rec), disk: h.disk.wrote_container(rec) }).in_step(),
{
    let b = h.backend.put_container(rec);
    assert forall|k: Seq<char>| #[trigger] b.containers.dom().contains(k) implies b.containers[k].id
        == k by {
        if k != rec.id {
            assert(h.backend.containers.dom().contains(k));
        }
    }
    assert(h.disk.wrote_container(rec) =~= b.disk());
}

proof fn lemma_put_sandbox(h: Held, rec: SandboxRecordView)
    requires
        h.in_step(),
    ensures
        (Held { backend: h.backend.put_sandbox(rec), disk: h.disk.wrote_sandbox(rec) }).in_step(),
{
    let b = h.backend.put_sandbox(rec);
    assert forall|k: Seq<char>| #[trigger] b.sandboxes.dom().contains(k) implies b.sandboxes[k].id
        == k by {
        if k != rec.id {
            assert(h.backend.sandboxes.dom().contains(k));
        }
    }
    assert(h.disk.wrote_sandbox(rec) =~= b.disk());
}

proof fn lemma_put_io(h: Held, id: Seq<char>, io: ContainerIo)
    requires
        h.in_step(),
    ensures
        (Held { backend: h.backend.put_io(id, io), disk: h.disk }).in_step(),
{
    assert(h.disk =~= h.backend.put_io(id, io).disk());
}

proof fn lemma_drop_container(h: Held, id: Seq<char>)
    requires
        h.in_step(),
    ensures
        (Held {
            backend: h.backend.drop_container(id),
            disk: h.disk.dropped_container(id),
        }).in_step(),
{
    assert(h.disk.dropped_container(id) =~= h.backend.drop_container(id).disk());
}

proof fn lemma_drop_sandbox(h: Held, id: Seq<char>)
    requires
        h.in_step(),
    ensures
        (Held { backend: h.backend.drop_sandbox(id), disk: h.disk.dropped_sandbox(id) }).in_step(),
{
    assert(h.disk.dropped_sandbox(id) =~= h.backend.drop_sandbox(id).disk());
}

proof fn lemma_exited(h: Held, e: Exit)
    requires
        h.in_step(),
    ensures
        h.exited(e).in_step(),
{
    let b = h.backend;
    let quiet = Held { backend: b.drop_io(e.id), disk: h.disk };
    assert(h.disk =~= quiet.backend.disk());
    if b.is_running(e.id) {
        assert(b.containers[e.id].id == e.id);
        let rec = b.exited_container(e.id, e.exit_code, e.reason, e.now_nanos).containers[e.id];
        lemma_put_container(quiet, rec);
    }
}

/// A process may end while a file is owed, unless that file is to say that it runs.
proof fn lemma_exited_meanwhile(h: Held, owed: Option<FileOp>, e: Exit)
    requires
        h.owes_only(owed),
        owed matches Some(FileOp::WriteContainer(rec)) ==> rec.id != e.id || rec.state
            != ContainerState::Running,
    ensures
        h.exited(e).owes_only(owed),
{
    let b = h.backend;
    let then = Held { backend: b, disk: paid(h.disk, owed) };
    lemma_exited(then, e);
    if b.is_running(e.id) {
        assert(b.containers[e.id].id == e.id);
        assert(paid(h.exited(e).disk, owed) =~= then.exited(e).disk);
    }
}

proof fn lemma_stopped_sandbox(h: Held, id: Seq<char>)
    requires
        h.in_step(),
    ensures
        h.after(Deed::SandboxStopped { id }).in_step(),
{
    let b = h.backend;
    if b.sandboxes.dom().contains(id) {
        assert(b.sandboxes[id].id == id);
        if b.sandboxes[id].state == SandboxState::Ready {
            lemma_put_sandbox(h, b.stopped_sandbox(id).sandboxes[id]);
        } else {
            assert(b.stopped_sandbox(id) =~= b);
        }
    }
}

proof fn lemma_starting(run: StartRun, moments: Seq<Moment<StartEvent>>)
    requires
        run.due_in_step(),
        starts_by(run, moments),
    ensures
        starting(run, moments).due_in_step(),
    decreases moments.len(),
{
    if moments.len() > 0 {
        lemma_started_on(run, moments[0]);
        lemma_starting(started_on(run, moments[0]), moments.drop_first());
    }
}

proof fn lemma_started_on(run: StartRun, moment: Moment<StartEvent>)
    requires
        run.due_in_step(),
        moment matches Moment::Event(e) ==> run.step.machine.awaits(e) && !(e
            matches StartEvent::Written(Err(_))),
        moment matches Moment::Exited(x) ==> !(run.step.action is Write) || x.id
            != run.step.machine.id,
    ensures
        started_on(run, moment).due_in_step(),
{
    let m = run.step.machine;
    let b = run.step.backend;
    match moment {
        Moment::Exited(x) => {
            lemma_exited_meanwhile(run.held(), run.owed(), x);
        },
        Moment::Event(e) => {
            let next = run.after(e);
            let now = Held { backend: b, disk: next.disk };
            assert(now.in_step());
            if b.containers.dom().contains(m.id) {
                assert(b.containers[m.id].id == m.id);
            }
            match e {
                StartEvent::Clock(now_nanos) => {
                    if b.containers.dom().contains(m.id) {
                        if m.phase == StartPhase::Timing {
                            let rec = crate::fake::start::starting_record(
                                b.containers[m.id],
                                now_nanos,
                            );
                            lemma_put_container(now, rec);
                        } else {
                            let rec = crate::fake::start::failed_record(
                                b.containers[m.id],
                                now_nanos,
                                m.fault,
                            );
                            lemma_put_container(now, rec);
                        }
                    }
                },
                StartEvent::Spawned(Ok(pid)) => {
                    if m.config.tty {
                        lemma_noted(
                            StartView { pid, ..m },
                            now,
                            crate::fake::start::terminal_io(),
                        );
                    }
                },
                StartEvent::PipesTaken(Ok(ends)) => {
                    lemma_noted(m, now, crate::fake::start::pipe_io(ends));
                },
                _ => {},
            }
        },
    }
}

proof fn lemma_noted(m: StartView, h: Held, io: ContainerIo)
    requires
        h.in_step(),
    ensures
        (StartRun { step: m.noted(h.backend.put_io(m.id, io)), disk: h.disk }).due_in_step(),
{
    lemma_put_io(h, m.id, io);
    let b = h.backend.put_io(m.id, io);
    if b.containers.dom().contains(m.id) {
        let rec = crate::fake::start::started_record(b.containers[m.id], m.pid);
        assert(b.containers[m.id].id == m.id);
        lemma_put_container(Held { backend: b, disk: h.disk }, rec);
    }
}

proof fn lemma_stopping(run: StopRun, moments: Seq<Moment<StopEvent>>)
    requires
        run.due_in_step(),
        stops_by(run, moments),
    ensures
        stopping(run, moments).due_in_step(),
    decreases moments.len(),
{
    if moments.len() > 0 {
        match moments[0] {
            Moment::Exited(x) => {
                lemma_exited_meanwhile(run.held(), run.owed(), x);
            },
            Moment::Event(e) => {
                lemma_stop_event(run, e);
            },
        }
        lemma_stopping(stopped_on(run, moments[0]), moments.drop_first());
    }
}

proof fn lemma_stop_event(run: StopRun, e: StopEvent)
    requires
        run.due_in_step(),
        run.step.machine.awaits(e),
        !(e matches StopEvent::Written(Err(_))),
    ensures
        run.after(e).due_in_step(),
{
    let b = run.step.backend;
    let id = run.step.machine.id;
    let now = Held { backend: b, disk: run.after(e).disk };
    assert(now.in_step());
    if let StopEvent::Clock(now_nanos) = e {
        if b.is_running(id) {
            assert(b.containers[id].id == id);
            lemma_put_container(
                now,
                crate::fake::stop::stopped_record(b.containers[id], now_nanos),
            );
        }
    }
}

proof fn lemma_remove_begins(h: Held, id: Seq<char>)
    requires
        h.in_step(),
    ensures
        (RemoveRun { step: RemoveView::begun(h.backend, id), disk: h.disk }).due_in_step(),
{
    let b = h.backend;
    lemma_stopped_sandbox(h, id);
    if b.sandboxes.dom().contains(id) && b.sandboxes[id].state == SandboxState::Ready {
        assert(b.sandboxes[id].id == id);
    } else {
        lemma_collected(RemoveView::new(id), h);
    }
}

proof fn lemma_removing(run: RemoveRun, moments: Seq<Moment<RemoveEvent>>)
    requires
        run.due_in_step(),
        removes_by(run, moments),
    ensures
        removing(run, moments).due_in_step(),
    decreases moments.len(),
{
    if moments.len() > 0 {
        match moments[0] {
            Moment::Exited(x) => {
                lemma_exited_meanwhile(run.held(), run.owed(), x);
            },
            Moment::Event(e) => {
                lemma_remove_event(run, e);
            },
        }
        lemma_removing(removed_on(run, moments[0]), moments.drop_first());
    }
}

proof fn lemma_remove_event(run: RemoveRun, e: RemoveEvent)
    requires
        run.due_in_step(),
        run.step.machine.awaits(e),
        !tells_of_a_failed_write(e),
    ensures
        run.after(e).due_in_step(),
{
    let m = run.step.machine;
    let b = run.step.backend;
    let now = Held { backend: b, disk: run.after(e).disk };
    assert(now.in_step());
    match e {
        RemoveEvent::Written(w) => {
            lemma_collected(m, now);
        },
        RemoveEvent::Stop(s) => {
            let sub = StopRun {
                step: crate::fake::stop::StopStep {
                    machine: m.stop->0,
                    backend: b,
                    action: run.step.action->Stop_0,
                },
                disk: run.disk,
            };
            lemma_stop_event(sub, s);
            assert(sub.after(s).disk == run.after(e).disk);
            lemma_stop_step(m, sub.after(s));
        },
        RemoveEvent::Deleted => {
            if m.phase == RemovePhase::Clearing {
                lemma_advanced(m, now);
            }
        },
    }
}

proof fn lemma_collected(m: RemoveView, h: Held)
    requires
        h.in_step(),
    ensures
        (RemoveRun { step: m.collected(h.backend), disk: h.disk }).due_in_step(),
{
    if h.backend.sandboxes.dom().contains(m.id) {
        lemma_advanced(
            RemoveView {
                containers: crate::fake::remove::containers_of(h.backend, m.id),
                at: 0,
                ..m
            },
            h,
        );
    }
}

proof fn lemma_advanced(m: RemoveView, h: Held)
    requires
        h.in_step(),
    ensures
        (RemoveRun { step: m.advanced(h.backend), disk: h.disk }).due_in_step(),
    decreases m.containers.len() - m.at, 2int,
{
    if 0 <= m.at < m.containers.len() {
        lemma_stop_step(
            m,
            StopRun { step: StopView::begun(h.backend, m.containers[m.at]), disk: h.disk },
        );
    } else if h.backend.sandboxes.dom().contains(m.id) {
        lemma_drop_sandbox(h, m.id);
    }
}

proof fn lemma_stop_step(m: RemoveView, run: StopRun)
    requires
        run.due_in_step(),
    ensures
        (RemoveRun { step: m.stopping(run.step), disk: run.disk }).due_in_step(),
    decreases m.containers.len() - m.at, 1int,
{
    if let StopActionView::Done(Ok(_)) = run.step.action {
        lemma_cleared(m, run.held());
    }
}

proof fn lemma_cleared(m: RemoveView, h: Held)
    requires
        h.in_step(),
    ensures
        (RemoveRun { step: m.cleared(h.backend), disk: h.disk }).due_in_step(),
    decreases m.containers.len() - m.at, 0int,
{
    let b = h.backend;
    if m.at < m.containers.len() {
        let cid = m.containers[m.at];
        if !b.is_running(cid) {
            if b.containers.dom().contains(cid) {
                lemma_drop_container(h, cid);
            } else {
                lemma_advanced(RemoveView { at: m.at + 1, stop: None, ..m }, h);
            }
        }
    }
}

/// Whatever calls are made, in whatever order, and whenever processes end meanwhile: as long as no
/// write fails, the files say what the backend holds after each of them.
pub proof fn law_files_agree_after_any_calls(h: Held, deeds: Seq<Deed>)
    requires
        h.in_step(),
        h.allows_all(deeds),
    ensures
        h.after_all(deeds).in_step(),
    decreases deeds.len(),
{
    if deeds.len() > 0 {
        lemma_deed(h, deeds[0]);
        law_files_agree_after_any_calls(h.after(deeds[0]), deeds.drop_first());
    }
}

/// A state directory without files, and the backend opened from it.
pub open spec fn empty_state(state_root: Seq<char>) -> Held {
    Held {
        backend: BackendView {
            state_root,
            sandboxes: Map::empty(),
            containers: Map::empty(),
            images: Map::empty(),
            io: Map::empty(),
        },
        disk: DiskView {
            sandboxes: Map::empty(),
            containers: Map::empty(),
            images: Map::empty(),
        },
    }
}

/// After any calls, made on a backend that began with no files, whoever opens its files while no
/// container is running is answered as it would have answered: nothing is lost, nothing invented.
pub proof fn law_nothing_is_lost(
    state_root: Seq<char>,
    deeds: Seq<Deed>,
    sandboxes: Seq<SandboxRecordView>,
    found: Seq<FoundContainer>,
    images: Seq<ImageDiskRecordView>,
)
    requires
        empty_state(state_root).allows_all(deeds),
        ({
            let end = empty_state(state_root).after_all(deeds);
            &&& read_from(end.disk, sandboxes, found, images)
            &&& forall|k: Seq<char>| #[trigger]
                end.backend.containers.dom().contains(k) ==> end.backend.containers[k].state
                    != ContainerState::Running
        }),
    ensures
        ({
            let b = empty_state(state_root).after_all(deeds).backend;
            let r = crate::fake::opened(state_root, sandboxes, found, images);
            &&& r.sandboxes == b.sandboxes
            &&& r.containers == b.containers
            &&& r.images == b.images
            &&& r.listed_images() == b.listed_images()
            &&& forall|f: SandboxFilterView|
                #![trigger crate::fake::sandbox::listed_sandboxes(r, f)]
                crate::fake::sandbox::listed_sandboxes(r, f)
                    == crate::fake::sandbox::listed_sandboxes(b, f)
            &&& forall|f: ContainerFilterView|
                #![trigger crate::fake::container::listed_containers(r, f)]
                crate::fake::container::listed_containers(r, f)
                    == crate::fake::container::listed_containers(b, f)
        }),
{
    let h = empty_state(state_root);
    assert(h.disk =~= h.backend.disk());
    law_files_agree_after_any_calls(h, deeds);
    law_reopening_finds_what_was_held(
        h.after_all(deeds),
        state_root,
        sandboxes,
        found,
        images,
    );
    let b = h.after_all(deeds).backend;
    let r = crate::fake::opened(state_root, sandboxes, found, images);
    assert(r.listed_images() =~= b.listed_images());
}

proof fn lemma_deed(h: Held, deed: Deed)
    requires
        h.in_step(),
        h.allows(deed),
    ensures
        h.after(deed).in_step(),
{
    let b = h.backend;
    match deed {
        Deed::SandboxRun { config, stamp_nanos, count, now_nanos } => {
            lemma_put_sandbox(
                h,
                crate::fake::sandbox::fresh_sandbox(config, stamp_nanos, count, now_nanos),
            );
        },
        Deed::SandboxStopped { id } => {
            lemma_stopped_sandbox(h, id);
        },
        Deed::SandboxRemoved { id, removal: moments } => {
            let run = RemoveRun { step: RemoveView::begun(b, id), disk: h.disk };
            lemma_remove_begins(h, id);
            lemma_removing(run, moments);
        },
        Deed::ContainerCreated { sandbox, cfg, stamp_nanos, count, now_nanos } => {
            lemma_put_container(
                h,
                crate::fake::container::fresh_container(
                    sandbox,
                    cfg,
                    stamp_nanos,
                    count,
                    now_nanos,
                ),
            );
        },
        Deed::ContainerStarted { id, start: moments } => {
            if let Ok(step) = StartView::begun(b, id) {
                lemma_starting(StartRun { step, disk: h.disk }, moments);
            }
        },
        Deed::ContainerStopped { id, stop: moments } => {
            lemma_stopping(StopRun { step: StopView::begun(b, id), disk: h.disk }, moments);
        },
        Deed::ContainerRemoved { id } => {
            lemma_drop_container(h, id);
        },
        Deed::ContainerExited(e) => {
            lemma_exited(h, e);
        },
        Deed::ImagePulled { image_ref } => {
            let rec = crate::fake::image::pulled_record(
                image_ref,
                crate::fake::image::blake3_digest(vstd::utf8::encode_utf8(image_ref)),
            );
            crate::fake::image::law_pulled_is_found(b, image_ref);
            assert(h.disk.wrote_image(rec) =~= b.put_image(rec).disk());
            assert forall|k: Seq<char>| #[trigger] b.put_image(rec).images.dom().contains(k) implies
                b.put_image(rec).images[k].id == k by {
                if k != rec.id {
                    assert(b.images.dom().contains(k));
                }
            }
        },
        Deed::ImageRemoved { image_ref } => {
            if let Some(id) = b.find_image(image_ref) {
                crate::fake::image::law_removed_is_gone(b, image_ref);
                assert(h.disk.dropped_image(id) =~= b.drop_image(id).disk());
            }
        },
        Deed::Reopened { state_root, sandboxes, found, images } => {
            law_reopening_finds_what_was_held(h, state_root, sandboxes, found, images);
            let r = h.after(deed);
            lemma_corrections(h.disk, found, found.len() as int);
            assert(found.take(found.len() as int) =~= found);
            assert(r.disk.containers =~= r.backend.containers);
            lemma_wrote_all(h.disk, crate::fake::corrections(found));
            assert(r.disk =~= r.backend.disk());
        },
    }
}

/// Who opens the files again finds every sandbox, container and image as it was. Only a container
/// that was running may have changed: it has exited if its process is not there any more. Where none
/// was running, all is as it was, but that no streams are held.
pub proof fn law_reopening_finds_what_was_held(
    h: Held,
    state_root: Seq<char>,
    sandboxes: Seq<SandboxRecordView>,
    found: Seq<FoundContainer>,
    images: Seq<ImageDiskRecordView>,
)
    requires
        h.in_step(),
        read_from(h.disk, sandboxes, found, images),
    ensures
        ({
            let b = h.backend;
            let r = crate::fake::opened(state_root, sandboxes, found, images);
            &&& r.wf()
            &&& crate::fake::image::images_named_by_ref(r)
            &&& r.sandboxes == b.sandboxes
            &&& r.images == b.images
            &&& r.containers.dom() == b.containers.dom()
            &&& forall|k: Seq<char>| #[trigger]
                b.containers.dom().contains(k) ==> exists|i: int|
                    0 <= i < found.len() && (#[trigger] found[i]).rec@ == b.containers[k]
                        && r.containers[k] == found[i].recovered()
            &&& forall|k: Seq<char>| #[trigger]
                b.containers.dom().contains(k) && b.containers[k].state != ContainerState::Running
                    ==> r.containers[k] == b.containers[k]
            &&& (forall|k: Seq<char>| #[trigger]
                b.containers.dom().contains(k) ==> b.containers[k].state
                    != ContainerState::Running) ==> r == (BackendView {
                state_root,
                io: Map::empty(),
                ..b
            })
        }),
{
    let b = h.backend;
    let r = crate::fake::opened(state_root, sandboxes, found, images);
    crate::fake::disk::law_reopening_restores_the_state(h.disk, sandboxes, found, images);
    let all = crate::fake::recovered_all(found);
    let name = |c: ContainerRecordView| c.id;
    assert forall|k: Seq<char>| #[trigger] b.containers.dom().contains(k) implies exists|i: int|
        0 <= i < found.len() && (#[trigger] found[i]).rec@ == b.containers[k] && r.containers[k]
            == found[i].recovered() by {
        assert(r.containers.dom().contains(k));
        let i = lemma_indexed_member(all, name, k);
        let recs = found.map_values(|f: FoundContainer| f.rec@);
        assert(name(recs[i]) == k);
        assert(found[i].rec@ == b.containers[k]);
    }
    assert forall|k: Seq<char>| #[trigger] r.containers.dom().contains(k) implies r.containers[k].id
        == k by {
        assert(b.containers.dom().contains(k));
    }
    if forall|k: Seq<char>| #[trigger]
        b.containers.dom().contains(k) ==> b.containers[k].state != ContainerState::Running {
        assert(r.containers =~= b.containers);
    }
}

/// What is found under a name is one of the values with that name.
proof fn lemma_indexed_member(
    recs: Seq<ContainerRecordView>,
    name: spec_fn(ContainerRecordView) -> Seq<char>,
    k: Seq<char>,
) -> (i: int)
    requires
        crate::text_map::indexed(recs, name).dom().contains(k),
    ensures
        0 <= i < recs.len(),
        name(recs[i]) == k,
        crate::text_map::indexed(recs, name)[k] == recs[i],
    decreases recs.len(),
{
    if recs.len() == 0 {
        0
    } else if name(recs.last()) == k {
        recs.len() - 1
    } else {
        lemma_indexed_member(recs.drop_last(), name, k)
    }
}

/// Only the files of containers are written.
proof fn lemma_wrote_all(disk: DiskView, recs: Seq<ContainerRecordView>)
    ensures
        wrote_all(disk, recs).sandboxes == disk.sandboxes,
        wrote_all(disk, recs).images == disk.images,
    decreases recs.len(),
{
    if recs.len() > 0 {
        lemma_wrote_all(disk, recs.drop_last());
    }
}

/// Of the first containers found, the files say what was made of them once the corrections have been
/// written; of the others they say what they said.
proof fn lemma_corrections(disk: DiskView, found: Seq<FoundContainer>, j: int)
    requires
        0 <= j <= found.len(),
        crate::text_map::enumerates(
            found.map_values(|f: FoundContainer| f.rec@),
            |r: ContainerRecordView| r.id,
            disk.containers,
        ),
        forall|a: int, b: int|
            #![trigger found[a], found[b]]
            0 <= a < b < found.len() ==> found[a].rec@.id != found[b].rec@.id,
    ensures
        ({
            let made = crate::fake::index_containers(crate::fake::recovered_all(found.take(j)));
            let written = wrote_all(disk, crate::fake::corrections(found.take(j))).containers;
            forall|k: Seq<char>|
                #![trigger written.dom().contains(k)]
                #![trigger made.dom().contains(k)]
                {
                    &&& made.dom().contains(k) ==> written.dom().contains(k) && written[k] == made[k]
                    &&& !made.dom().contains(k) ==> written.dom().contains(k)
                        == disk.containers.dom().contains(k) && written[k] == disk.containers[k]
                }
        }),
    decreases j,
{
    let lost = |f: FoundContainer| crate::fake::record::is_lost(f.rec@, f.alive);
    if j == 0 {
        assert(crate::fake::recovered_all(found.take(0)) =~= Seq::empty());
        assert(found.take(0) =~= Seq::empty());
        reveal(Seq::filter);
        assert(crate::fake::corrections(found.take(0)) =~= Seq::empty());
    } else {
        let f = found[j - 1];
        let n = f.rec@.id;
        let recs = found.map_values(|f: FoundContainer| f.rec@);
        let name = |r: ContainerRecordView| r.id;
        let before = crate::fake::recovered_all(found.take(j - 1));
        let after = crate::fake::recovered_all(found.take(j));
        lemma_corrections(disk, found, j - 1);
        crate::seqs::lemma_filter_take(found, lost, j - 1);
        assert(after.drop_last() =~= before);
        assert(after.last() == f.recovered());
        assert(!crate::fake::index_containers(before).dom().contains(n)) by {
            crate::text_map::lemma_indexed_dom(before, name, n);
            if crate::text_map::is_named(before, name, n) {
                let i = choose|i: int| 0 <= i < before.len() && name(#[trigger] before[i]) == n;
                assert(found[i].rec@.id == n);
                assert(found[j - 1].rec@.id == n);
            }
        }
        assert(recs[j - 1] == f.rec@);
        assert(disk.containers.dom().contains(name(recs[j - 1])));
        let c0 = crate::fake::corrections(found.take(j - 1));
        let c1 = crate::fake::corrections(found.take(j));
        if lost(f) {
            assert(c1 =~= c0.push(f.recovered()));
            assert(c1.drop_last() =~= c0);
        } else {
            assert(c1 =~= c0);
        }
    }
}

/// Whether the backend holds this record of the container and these of its streams.
pub open spec fn holds_on(
    b: BackendView,
    id: Seq<char>,
    rec: ContainerRecordView,
    io: ContainerIo,
) -> bool {
    &&& b.containers.dom().contains(id)
    &&& b.containers[id] == rec
    &&& b.io.dom().contains(id)
    &&& b.io[id] == io
}

/// Whether the container's process does not end meanwhile.
pub open spec fn lives_through<E>(moments: Seq<Moment<E>>, id: Seq<char>) -> bool {
    forall|i: int|
        0 <= i < moments.len() ==> (#[trigger] moments[i] matches Moment::Exited(x) ==> x.id != id)
}

/// Whether the call leaves a running container of the sandbox alone: it does not stop it, nor remove
/// its sandbox, nor give its name away, its process does not end meanwhile, and the backend stays
/// open.
pub open spec fn spares(deed: Deed, id: Seq<char>, sandbox: Seq<char>) -> bool {
    match deed {
        Deed::SandboxRemoved { id: other, removal } => other != sandbox && lives_through(
            removal,
            id,
        ),
        Deed::ContainerCreated { sandbox: sb, cfg, stamp_nanos, count, now_nanos } => {
            crate::fake::container::fresh_container(sb, cfg, stamp_nanos, count, now_nanos).id != id
        },
        Deed::ContainerStarted { id: _, start } => lives_through(start, id),
        Deed::ContainerStopped { id: other, stop } => other != id && lives_through(stop, id),
        Deed::ContainerExited(x) => x.id != id,
        Deed::Reopened { .. } => false,
        _ => true,
    }
}

/// A running container stays as it is, and its streams stay held, through all calls that leave it
/// alone. So whoever could attach to it still can.
pub proof fn law_running_container_stays_attachable(h: Held, deeds: Seq<Deed>, id: Seq<char>)
    requires
        h.in_step(),
        h.allows_all(deeds),
        h.backend.is_running(id),
        h.backend.io.dom().contains(id),
        forall|i: int|
            0 <= i < deeds.len() ==> spares(
                #[trigger] deeds[i],
                id,
                h.backend.containers[id].sandbox,
            ),
    ensures
        ({
            let b = h.backend;
            let end = h.after_all(deeds).backend;
            &&& holds_on(end, id, b.containers[id], b.io[id])
            &&& crate::fake::exec::attach_of(end, id) == crate::fake::exec::attach_of(b, id)
        }),
    decreases deeds.len(),
{
    if deeds.len() > 0 {
        let b = h.backend;
        lemma_deed(h, deeds[0]);
        lemma_deed_spares(h, deeds[0], id, b.containers[id], b.io[id]);
        assert forall|i: int| 0 <= i < deeds.drop_first().len() implies spares(
            #[trigger] deeds.drop_first()[i],
            id,
            b.containers[id].sandbox,
        ) by {
            assert(deeds.drop_first()[i] == deeds[i + 1]);
        }
        law_running_container_stays_attachable(h.after(deeds[0]), deeds.drop_first(), id);
    }
}

proof fn lemma_deed_spares(
    h: Held,
    deed: Deed,
    id: Seq<char>,
    rec: ContainerRecordView,
    io: ContainerIo,
)
    requires
        h.in_step(),
        h.allows(deed),
        spares(deed, id, rec.sandbox),
        holds_on(h.backend, id, rec, io),
        rec.state == ContainerState::Running,
    ensures
        holds_on(h.after(deed).backend, id, rec, io),
{
    let b = h.backend;
    match deed {
        Deed::SandboxRemoved { id: other, removal } => {
            let run = RemoveRun { step: RemoveView::begun(b, other), disk: h.disk };
            lemma_remove_begins(h, other);
            if b.sandboxes.dom().contains(other) && b.sandboxes[other].state
                == SandboxState::Ready {
            } else {
                lemma_collected_spares(RemoveView::new(other), b, id, rec, io);
            }
            lemma_removing_spares(run, removal, id, rec, io);
        },
        Deed::ContainerStarted { id: other, start } => {
            if let Ok(step) = StartView::begun(b, other) {
                lemma_starting_spares(StartRun { step, disk: h.disk }, start, id, rec, io);
            }
        },
        Deed::ContainerStopped { id: other, stop } => {
            lemma_stopping_spares(
                StopRun { step: StopView::begun(b, other), disk: h.disk },
                stop,
                id,
                rec,
                io,
            );
        },
        Deed::ContainerExited(x) => {
            lemma_exited_spares(h, x, id, rec, io);
        },
        _ => {},
    }
}

proof fn lemma_exited_spares(
    h: Held,
    x: Exit,
    id: Seq<char>,
    rec: ContainerRecordView,
    io: ContainerIo,
)
    requires
        h.backend.wf(),
        x.id != id,
        holds_on(h.backend, id, rec, io),
    ensures
        holds_on(h.exited(x).backend, id, rec, io),
{
    if h.backend.containers.dom().contains(x.id) {
        assert(h.backend.containers[x.id].id == x.id);
    }
}

proof fn lemma_lives_on<E>(moments: Seq<Moment<E>>, id: Seq<char>)
    requires
        moments.len() > 0,
        lives_through(moments, id),
    ensures
        lives_through(moments.drop_first(), id),
        moments[0] matches Moment::Exited(x) ==> x.id != id,
{
    assert forall|i: int| 0 <= i < moments.drop_first().len() implies (
    #[trigger] moments.drop_first()[i] matches Moment::Exited(x) ==> x.id != id) by {
        assert(moments.drop_first()[i] == moments[i + 1]);
    }
}

proof fn lemma_starting_spares(
    run: StartRun,
    moments: Seq<Moment<StartEvent>>,
    id: Seq<char>,
    rec: ContainerRecordView,
    io: ContainerIo,
)
    requires
        run.due_in_step(),
        starts_by(run, moments),
        lives_through(moments, id),
        run.step.machine.id != id,
        holds_on(run.step.backend, id, rec, io),
    ensures
        holds_on(starting(run, moments).step.backend, id, rec, io),
    decreases moments.len(),
{
    if moments.len() > 0 {
        let m = run.step.machine;
        lemma_started_on(run, moments[0]);
        if run.step.backend.containers.dom().contains(m.id) {
            assert(run.step.backend.containers[m.id].id == m.id);
        }
        if let Moment::Exited(x) = moments[0] {
            lemma_exited_spares(run.held(), x, id, rec, io);
        }
        lemma_lives_on(moments, id);
        lemma_starting_spares(
            started_on(run, moments[0]),
            moments.drop_first(),
            id,
            rec,
            io,
        );
    }
}

proof fn lemma_stop_event_spares(
    run: StopRun,
    e: StopEvent,
    id: Seq<char>,
    rec: ContainerRecordView,
    io: ContainerIo,
)
    requires
        run.due_in_step(),
        run.step.machine.id != id,
        holds_on(run.step.backend, id, rec, io),
    ensures
        run.after(e).step.machine.id == run.step.machine.id,
        holds_on(run.after(e).step.backend, id, rec, io),
{
    let m = run.step.machine;
    if run.step.backend.containers.dom().contains(m.id) {
        assert(run.step.backend.containers[m.id].id == m.id);
    }
}

proof fn lemma_stopping_spares(
    run: StopRun,
    moments: Seq<Moment<StopEvent>>,
    id: Seq<char>,
    rec: ContainerRecordView,
    io: ContainerIo,
)
    requires
        run.due_in_step(),
        stops_by(run, moments),
        lives_through(moments, id),
        run.step.machine.id != id,
        holds_on(run.step.backend, id, rec, io),
    ensures
        holds_on(stopping(run, moments).step.backend, id, rec, io),
    decreases moments.len(),
{
    if moments.len() > 0 {
        match moments[0] {
            Moment::Exited(x) => {
                lemma_exited_meanwhile(run.held(), run.owed(), x);
                lemma_exited_spares(run.held(), x, id, rec, io);
            },
            Moment::Event(e) => {
                lemma_stop_event(run, e);
                lemma_stop_event_spares(run, e, id, rec, io);
            },
        }
        lemma_lives_on(moments, id);
        lemma_stopping_spares(
            stopped_on(run, moments[0]),
            moments.drop_first(),
            id,
            rec,
            io,
        );
    }
}

/// What holds while another sandbox is removed.
spec fn step_spares(
    step: crate::fake::remove::RemoveStep,
    id: Seq<char>,
    rec: ContainerRecordView,
    io: ContainerIo,
) -> bool {
    &&& holds_on(step.backend, id, rec, io)
    &&& machine_spares(step.machine, id, rec)
    &&& step.machine.stop matches Some(s) ==> s.id != id
}

spec fn machine_spares(m: RemoveView, id: Seq<char>, rec: ContainerRecordView) -> bool {
    m.id != rec.sandbox && !m.containers.contains(id)
}

proof fn lemma_removing_spares(
    run: RemoveRun,
    moments: Seq<Moment<RemoveEvent>>,
    id: Seq<char>,
    rec: ContainerRecordView,
    io: ContainerIo,
)
    requires
        run.due_in_step(),
        removes_by(run, moments),
        lives_through(moments, id),
        step_spares(run.step, id, rec, io),
    ensures
        holds_on(removing(run, moments).step.backend, id, rec, io),
    decreases moments.len(),
{
    if moments.len() > 0 {
        match moments[0] {
            Moment::Exited(x) => {
                lemma_exited_meanwhile(run.held(), run.owed(), x);
                lemma_exited_spares(run.held(), x, id, rec, io);
            },
            Moment::Event(e) => {
                lemma_remove_event(run, e);
                lemma_remove_event_spares(run, e, id, rec, io);
            },
        }
        lemma_lives_on(moments, id);
        lemma_removing_spares(
            removed_on(run, moments[0]),
            moments.drop_first(),
            id,
            rec,
            io,
        );
    }
}

proof fn lemma_remove_event_spares(
    run: RemoveRun,
    e: RemoveEvent,
    id: Seq<char>,
    rec: ContainerRecordView,
    io: ContainerIo,
)
    requires
        run.due_in_step(),
        run.step.machine.awaits(e),
        !tells_of_a_failed_write(e),
        step_spares(run.step, id, rec, io),
    ensures
        step_spares(run.after(e).step, id, rec, io),
{
    let m = run.step.machine;
    let b = run.step.backend;
    match e {
        RemoveEvent::Written(w) => {
            lemma_collected_spares(m, b, id, rec, io);
        },
        RemoveEvent::Stop(s) => {
            let sub = StopRun {
                step: crate::fake::stop::StopStep {
                    machine: m.stop->0,
                    backend: b,
                    action: run.step.action->Stop_0,
                },
                disk: run.disk,
            };
            lemma_stop_event_spares(sub, s, id, rec, io);
            lemma_stop_step_spares(m, sub.after(s).step, id, rec, io);
        },
        RemoveEvent::Deleted => {
            if m.phase == RemovePhase::Clearing {
                lemma_advanced_spares(m, b, id, rec, io);
            }
        },
    }
}

proof fn lemma_collected_spares(
    m: RemoveView,
    b: BackendView,
    id: Seq<char>,
    rec: ContainerRecordView,
    io: ContainerIo,
)
    requires
        b.wf(),
        holds_on(b, id, rec, io),
        machine_spares(m, id, rec),
    ensures
        step_spares(m.collected(b), id, rec, io),
{
    if b.sandboxes.dom().contains(m.id) {
        let mine = |r: ContainerRecordView| r.sandbox == m.id;
        let names = crate::text_map::picked(b.containers, mine);
        crate::text_map::lemma_sorted_set(names);
        let list = crate::fake::remove::containers_of(b, m.id);
        assert(!list.contains(id)) by {
            assert(list.to_set().contains(id) <==> list.contains(id));
            assert(!names.contains(id));
        }
        lemma_advanced_spares(RemoveView { containers: list, at: 0, ..m }, b, id, rec, io);
    }
}

proof fn lemma_advanced_spares(
    m: RemoveView,
    b: BackendView,
    id: Seq<char>,
    rec: ContainerRecordView,
    io: ContainerIo,
)
    requires
        holds_on(b, id, rec, io),
        machine_spares(m, id, rec),
    ensures
        step_spares(m.advanced(b), id, rec, io),
    decreases m.containers.len() - m.at, 2int,
{
    if 0 <= m.at < m.containers.len() {
        assert(m.containers.contains(m.containers[m.at]));
        lemma_stop_step_spares(m, StopView::begun(b, m.containers[m.at]), id, rec, io);
    }
}

proof fn lemma_stop_step_spares(
    m: RemoveView,
    s: crate::fake::stop::StopStep,
    id: Seq<char>,
    rec: ContainerRecordView,
    io: ContainerIo,
)
    requires
        holds_on(s.backend, id, rec, io),
        s.machine.id != id,
        machine_spares(m, id, rec),
        0 <= m.at,
    ensures
        step_spares(m.stopping(s), id, rec, io),
    decreases m.containers.len() - m.at, 1int,
{
    if let StopActionView::Done(Ok(_)) = s.action {
        lemma_cleared_spares(m, s.backend, id, rec, io);
    }
}

proof fn lemma_cleared_spares(
    m: RemoveView,
    b: BackendView,
    id: Seq<char>,
    rec: ContainerRecordView,
    io: ContainerIo,
)
    requires
        holds_on(b, id, rec, io),
        machine_spares(m, id, rec),
        0 <= m.at,
    ensures
        step_spares(m.cleared(b), id, rec, io),
    decreases m.containers.len() - m.at, 0int,
{
    if m.at < m.containers.len() {
        let cid = m.containers[m.at];
        assert(m.containers.contains(cid));
        if !b.is_running(cid) && !b.containers.dom().contains(cid) {
            lemma_advanced_spares(
                RemoveView { at: m.at + 1, stop: None, ..m },
                b,
                id,
                rec,
                io,
            );
        }
    }
}

/// Whose record a file holds.
pub enum FileName {
    Sandbox(Seq<char>),
    Container(Seq<char>),
    Image(Seq<char>),
}

/// The file that is to be written or deleted.
pub open spec fn file_of(owed: Option<FileOp>) -> Option<FileName> {
    match owed {
        Some(FileOp::WriteSandbox(rec)) => Some(FileName::Sandbox(rec.id)),
        Some(FileOp::WriteContainer(rec)) => Some(FileName::Container(rec.id)),
        Some(FileOp::DeleteSandbox(id)) => Some(FileName::Sandbox(id)),
        Some(FileOp::DeleteContainer(id)) => Some(FileName::Container(id)),
        None => None,
    }
}

/// A call at one instant of its course: what the backend holds, what the files say, and the one file
/// that is ahead or behind, if any is.
pub struct Instant {
    pub held: Held,
    pub astray: Option<FileName>,
}

impl Held {
    /// The call at an instant between its beginning and its end. Where it goes through steps, it has
    /// come as far as the moments say. Else the instant is the one between a change of the backend and
    /// its file; new records are written first and then taken in, all others the other way round.
    pub open spec fn amid(self, deed: Deed) -> Instant {
        let b = self.backend;
        let end = self.after(deed);
        let written = Held { backend: b, disk: end.disk };
        let changed = Held { backend: end.backend, disk: self.disk };
        match deed {
            Deed::SandboxRun { config, stamp_nanos, count, now_nanos } => Instant {
                held: written,
                astray: Some(
                    FileName::Sandbox(
                        crate::fake::sandbox::fresh_sandbox(
                            config,
                            stamp_nanos,
                            count,
                            now_nanos,
                        ).id,
                    ),
                ),
            },
            Deed::SandboxStopped { id } => Instant {
                held: changed,
                astray: Some(FileName::Sandbox(id)),
            },
            Deed::SandboxRemoved { id, removal: moments } => {
                let run = removing(
                    RemoveRun { step: RemoveView::begun(b, id), disk: self.disk },
                    moments,
                );
                Instant { held: run.held(), astray: file_of(run.owed()) }
            },
            Deed::ContainerCreated { sandbox, cfg, stamp_nanos, count, now_nanos } => Instant {
                held: written,
                astray: Some(
                    FileName::Container(
                        crate::fake::container::fresh_container(
                            sandbox,
                            cfg,
                            stamp_nanos,
                            count,
                            now_nanos,
                        ).id,
                    ),
                ),
            },
            Deed::ContainerStarted { id, start: moments } => match StartView::begun(b, id) {
                Ok(step) => {
                    let run = starting(StartRun { step, disk: self.disk }, moments);
                    Instant { held: run.held(), astray: file_of(run.owed()) }
                },
                Err(_) => Instant { held: self, astray: None },
            },
            Deed::ContainerStopped { id, stop: moments } => {
                let run = stopping(
                    StopRun { step: StopView::begun(b, id), disk: self.disk },
                    moments,
                );
                Instant { held: run.held(), astray: file_of(run.owed()) }
            },
            Deed::ContainerRemoved { id } => Instant {
                held: changed,
                astray: Some(FileName::Container(id)),
            },
            Deed::ContainerExited(e) => Instant {
                held: changed,
                astray: Some(FileName::Container(e.id)),
            },
            Deed::ImagePulled { image_ref } => Instant {
                held: written,
                astray: Some(
                    FileName::Image(
                        crate::fake::image::pulled_record(
                            image_ref,
                            crate::fake::image::blake3_digest(vstd::utf8::encode_utf8(image_ref)),
                        ).id,
                    ),
                ),
            },
            Deed::ImageRemoved { image_ref } => Instant {
                held: changed,
                astray: match b.find_image(image_ref) {
                    Some(id) => Some(FileName::Image(id)),
                    None => None,
                },
            },
            Deed::Reopened { .. } => Instant { held: self, astray: None },
        }
    }

    /// Whether the call can come as far as that: as it can go, but that it need not come to its end.
    pub open spec fn reaches(self, deed: Deed) -> bool {
        let b = self.backend;
        match deed {
            Deed::SandboxRemoved { id, removal: moments } => removes_by(
                RemoveRun { step: RemoveView::begun(b, id), disk: self.disk },
                moments,
            ),
            Deed::ContainerStarted { id, start: moments } => match StartView::begun(b, id) {
                Ok(step) => starts_by(StartRun { step, disk: self.disk }, moments),
                Err(_) => true,
            },
            Deed::ContainerStopped { id, stop: moments } => stops_by(
                StopRun { step: StopView::begun(b, id), disk: self.disk },
                moments,
            ),
            Deed::Reopened { sandboxes, found, images, .. } => read_from(
                self.disk,
                sandboxes,
                found,
                images,
            ),
            _ => true,
        }
    }
}

impl Instant {
    /// The files hold every record that the backend holds, and but for the file that is ahead or
    /// behind they say what it holds.
    pub open spec fn in_step(self) -> bool {
        let b = self.held.backend;
        let d = self.held.disk;
        &&& b.sandboxes.dom().subset_of(d.sandboxes.dom())
        &&& b.containers.dom().subset_of(d.containers.dom())
        &&& b.images.dom().subset_of(d.images.dom())
        &&& forall|k: Seq<char>|
            #![trigger d.sandboxes.dom().contains(k)]
            self.astray != Some(FileName::Sandbox(k)) ==> {
                &&& d.sandboxes.dom().contains(k) ==> b.sandboxes.dom().contains(k)
                &&& b.sandboxes.dom().contains(k) ==> d.sandboxes[k] == b.sandboxes[k]
            }
        &&& forall|k: Seq<char>|
            #![trigger d.containers.dom().contains(k)]
            self.astray != Some(FileName::Container(k)) ==> {
                &&& d.containers.dom().contains(k) ==> b.containers.dom().contains(k)
                &&& b.containers.dom().contains(k) ==> d.containers[k] == b.containers[k]
            }
        &&& forall|k: Seq<char>|
            #![trigger d.images.dom().contains(k)]
            self.astray != Some(FileName::Image(k)) ==> {
                &&& d.images.dom().contains(k) ==> b.images.dom().contains(k)
                &&& b.images.dom().contains(k) ==> d.images[k] == b.images[k]
            }
    }
}

/// At every instant of every call the files hold all records that the backend holds, and at most one
/// of them says something else.
pub proof fn law_files_nearly_agree_at_any_instant(h: Held, deeds: Seq<Deed>, deed: Deed)
    requires
        h.in_step(),
        h.allows_all(deeds),
        h.after_all(deeds).reaches(deed),
    ensures
        h.after_all(deeds).amid(deed).in_step(),
{
    law_files_agree_after_any_calls(h, deeds);
    lemma_amid(h.after_all(deeds), deed);
}

proof fn lemma_owes_only(h: Held, owed: Option<FileOp>)
    requires
        h.owes_only(owed),
    ensures
        (Instant { held: h, astray: file_of(owed) }).in_step(),
{
    let b = h.backend;
    assert(paid(h.disk, owed).sandboxes == b.sandboxes);
    assert(paid(h.disk, owed).containers == b.containers);
    assert(paid(h.disk, owed).images == b.images);
}

proof fn lemma_amid(h: Held, deed: Deed)
    requires
        h.in_step(),
        h.reaches(deed),
    ensures
        h.amid(deed).in_step(),
{
    let b = h.backend;
    match deed {
        Deed::SandboxStopped { id } => {
            if b.sandboxes.dom().contains(id) {
                assert(b.sandboxes[id].id == id);
            }
        },
        Deed::SandboxRemoved { id, removal: moments } => {
            let run = RemoveRun { step: RemoveView::begun(b, id), disk: h.disk };
            lemma_remove_begins(h, id);
            lemma_removing(run, moments);
            lemma_owes_only(removing(run, moments).held(), removing(run, moments).owed());
        },
        Deed::ContainerStarted { id, start: moments } => {
            if let Ok(step) = StartView::begun(b, id) {
                let run = StartRun { step, disk: h.disk };
                lemma_starting(run, moments);
                lemma_owes_only(starting(run, moments).held(), starting(run, moments).owed());
            }
        },
        Deed::ContainerStopped { id, stop: moments } => {
            let run = StopRun { step: StopView::begun(b, id), disk: h.disk };
            lemma_stopping(run, moments);
            lemma_owes_only(stopping(run, moments).held(), stopping(run, moments).owed());
        },
        Deed::ContainerExited(e) => {
            if b.containers.dom().contains(e.id) {
                assert(b.containers[e.id].id == e.id);
            }
        },
        _ => {},
    }
}

/// Whoever kills the process at any instant of any call, and opens the files again, finds everything
/// that the backend held: sandboxes and images as they were, and containers as they were or, if they
/// were running, as their processes are found. At most one record is found ahead or behind, the one
/// whose file was being dealt with; it is not missing if the backend held it.
pub proof fn law_kill_at_any_instant_loses_nothing(
    h: Held,
    deeds: Seq<Deed>,
    deed: Deed,
    state_root: Seq<char>,
    sandboxes: Seq<SandboxRecordView>,
    found: Seq<FoundContainer>,
    images: Seq<ImageDiskRecordView>,
)
    requires
        h.in_step(),
        h.allows_all(deeds),
        h.after_all(deeds).reaches(deed),
        read_from(h.after_all(deeds).amid(deed).held.disk, sandboxes, found, images),
    ensures
        ({
            let now = h.after_all(deeds).amid(deed);
            let b = now.held.backend;
            let r = crate::fake::opened(state_root, sandboxes, found, images);
            &&& b.sandboxes.dom().subset_of(r.sandboxes.dom())
            &&& b.containers.dom().subset_of(r.containers.dom())
            &&& b.images.dom().subset_of(r.images.dom())
            &&& forall|k: Seq<char>|
                #![trigger r.sandboxes.dom().contains(k)]
                now.astray != Some(FileName::Sandbox(k)) ==> {
                    &&& r.sandboxes.dom().contains(k) <==> b.sandboxes.dom().contains(k)
                    &&& b.sandboxes.dom().contains(k) ==> r.sandboxes[k] == b.sandboxes[k]
                }
            &&& forall|k: Seq<char>|
                #![trigger r.containers.dom().contains(k)]
                now.astray != Some(FileName::Container(k)) ==> {
                    &&& r.containers.dom().contains(k) <==> b.containers.dom().contains(k)
                    &&& b.containers.dom().contains(k) ==> is_recovery(
                        b.containers[k],
                        found,
                        r.containers[k],
                    )
                }
            &&& forall|k: Seq<char>|
                #![trigger r.images.dom().contains(k)]
                now.astray != Some(FileName::Image(k)) ==> {
                    &&& r.images.dom().contains(k) <==> b.images.dom().contains(k)
                    &&& b.images.dom().contains(k) ==> r.images[k] == b.images[k]
                }
        }),
{
    let now = h.after_all(deeds).amid(deed);
    let b = now.held.backend;
    let d = now.held.disk;
    law_files_nearly_agree_at_any_instant(h, deeds, deed);
    crate::fake::disk::law_reopening_restores_the_state(d, sandboxes, found, images);
    let r = crate::fake::opened(state_root, sandboxes, found, images);
    assert forall|k: Seq<char>|
        #![trigger r.containers.dom().contains(k)]
        now.astray != Some(FileName::Container(k)) implies {
        &&& r.containers.dom().contains(k) <==> b.containers.dom().contains(k)
        &&& b.containers.dom().contains(k) ==> is_recovery(b.containers[k], found, r.containers[k])
    } by {
        assert(d.containers.dom().contains(k) <==> r.containers.dom().contains(k));
        if b.containers.dom().contains(k) {
            assert(d.containers.dom().contains(k));
            lemma_recovery(d, found, k);
        }
    }
}

/// Whether the record is what was made of another when it was read back: the same, unless that other
/// was running.
pub open spec fn is_recovery(
    rec: ContainerRecordView,
    found: Seq<FoundContainer>,
    made: ContainerRecordView,
) -> bool {
    &&& exists|i: int|
        0 <= i < found.len() && (#[trigger] found[i]).rec@ == rec && made == found[i].recovered()
    &&& rec.state != ContainerState::Running ==> made == rec
}

proof fn lemma_recovery(disk: DiskView, found: Seq<FoundContainer>, k: Seq<char>)
    requires
        crate::text_map::enumerates(
            found.map_values(|f: FoundContainer| f.rec@),
            |r: ContainerRecordView| r.id,
            disk.containers,
        ),
        disk.containers.dom().contains(k),
        crate::fake::index_containers(crate::fake::recovered_all(found)).dom().contains(k),
    ensures
        is_recovery(
            disk.containers[k],
            found,
            crate::fake::index_containers(crate::fake::recovered_all(found))[k],
        ),
{
    let all = crate::fake::recovered_all(found);
    let name = |c: ContainerRecordView| c.id;
    let i = lemma_indexed_member(all, name, k);
    let recs = found.map_values(|f: FoundContainer| f.rec@);
    assert(name(recs[i]) == k);
    assert(found[i].rec@ == disk.containers[k]);
}

/// Opening the files may itself be cut short, with some of the corrected records written and others
/// not: whoever opens them then finds every sandbox and image as it was, and every container as it
/// was or as one of the two openings corrected it.
pub proof fn law_opening_may_be_cut_short(
    h: Held,
    sandboxes: Seq<SandboxRecordView>,
    found: Seq<FoundContainer>,
    images: Seq<ImageDiskRecordView>,
    n: int,
    state_root: Seq<char>,
    sandboxes_then: Seq<SandboxRecordView>,
    found_then: Seq<FoundContainer>,
    images_then: Seq<ImageDiskRecordView>,
)
    requires
        h.in_step(),
        read_from(h.disk, sandboxes, found, images),
        0 <= n <= crate::fake::corrections(found).len(),
        read_from(
            wrote_all(h.disk, crate::fake::corrections(found).take(n)),
            sandboxes_then,
            found_then,
            images_then,
        ),
    ensures
        ({
            let b = h.backend;
            let r = crate::fake::opened(state_root, sandboxes_then, found_then, images_then);
            &&& r.sandboxes == b.sandboxes
            &&& r.images == b.images
            &&& r.containers.dom() == b.containers.dom()
            &&& forall|k: Seq<char>| #[trigger]
                b.containers.dom().contains(k) ==> {
                    ||| is_recovery(b.containers[k], found_then, r.containers[k])
                    ||| is_recovery(b.containers[k], found, r.containers[k])
                }
        }),
{
    let b = h.backend;
    let recs = crate::fake::corrections(found).take(n);
    let d = wrote_all(h.disk, recs);
    let r = crate::fake::opened(state_root, sandboxes_then, found_then, images_then);
    let lost = |f: FoundContainer| crate::fake::record::is_lost(f.rec@, f.alive);
    let of_disk = found.map_values(|f: FoundContainer| f.rec@);
    assert forall|j: int| 0 <= j < recs.len() implies h.disk.containers.dom().contains(
        (#[trigger] recs[j]).id,
    ) && is_recovery(h.disk.containers[recs[j].id], found, recs[j]) && recs[j].state
        == ContainerState::Exited by {
        let f = found.filter(lost)[j];
        found.lemma_filter_pred(lost, j);
        assert(found.filter(lost).contains(f));
        found.lemma_filter_contains_rev(lost, f);
        let i = found.index_of(f);
        assert(found[i] == f);
        assert(of_disk[i] == f.rec@);
        assert(recs[j] == f.recovered());
    }
    lemma_wrote_all(h.disk, recs);
    lemma_wrote_some(h.disk, recs);
    crate::fake::disk::law_reopening_restores_the_state(d, sandboxes_then, found_then, images_then);
    assert(d.containers.dom() =~= h.disk.containers.dom());
    assert forall|k: Seq<char>| #[trigger] b.containers.dom().contains(k) implies {
        ||| is_recovery(b.containers[k], found_then, r.containers[k])
        ||| is_recovery(b.containers[k], found, r.containers[k])
    } by {
        assert(d.containers.dom().contains(k));
        assert(r.containers.dom().contains(k));
        lemma_recovery(d, found_then, k);
        if d.containers[k] != b.containers[k] {
            let j = choose|j: int|
                0 <= j < recs.len() && (#[trigger] recs[j]).id == k && d.containers[k] == recs[j];
            assert(r.containers[k] == recs[j]);
        }
    }
}

/// After some files were written, each says what it said or what was written.
proof fn lemma_wrote_some(disk: DiskView, recs: Seq<ContainerRecordView>)
    requires
        forall|j: int|
            0 <= j < recs.len() ==> disk.containers.dom().contains((#[trigger] recs[j]).id),
    ensures
        wrote_all(disk, recs).containers.dom() == disk.containers.dom(),
        forall|k: Seq<char>| #[trigger]
            wrote_all(disk, recs).containers.dom().contains(k) ==> {
                ||| wrote_all(disk, recs).containers[k] == disk.containers[k]
                ||| exists|j: int|
                    0 <= j < recs.len() && (#[trigger] recs[j]).id == k && wrote_all(
                        disk,
                        recs,
                    ).containers[k] == recs[j]
            },
    decreases recs.len(),
{
    if recs.len() > 0 {
        let before = recs.drop_last();
        assert forall|j: int| 0 <= j < before.len() implies disk.containers.dom().contains(
            (#[trigger] before[j]).id,
        ) by {
            assert(before[j] == recs[j]);
        }
        lemma_wrote_some(disk, before);
        let last = recs[recs.len() - 1];
        assert(disk.containers.dom().contains(last.id));
        assert(wrote_all(disk, recs).containers.dom() =~= disk.containers.dom());
        assert forall|k: Seq<char>| #[trigger]
            wrote_all(disk, recs).containers.dom().contains(k) implies {
            ||| wrote_all(disk, recs).containers[k] == disk.containers[k]
            ||| exists|j: int|
                0 <= j < recs.len() && (#[trigger] recs[j]).id == k && wrote_all(
                    disk,
                    recs,
                ).containers[k] == recs[j]
        } by {
            if k == last.id {
                assert(wrote_all(disk, recs).containers[k] == last);
            } else {
                assert(wrote_all(disk, before).containers.dom().contains(k));
                if wrote_all(disk, before).containers[k] != disk.containers[k] {
                    let j = choose|j: int|
                        0 <= j < before.len() && (#[trigger] before[j]).id == k && wrote_all(
                            disk,
                            before,
                        ).containers[k] == before[j];
                    assert(recs[j] == before[j]);
                }
            }
        }
    }
}

} // verus!
