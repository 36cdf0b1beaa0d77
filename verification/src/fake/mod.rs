//! The file-backed backend: sandboxes, containers and images, and the processes that run them.
//!
//! The backend decides; whoever drives it reads and writes the files, starts and signals the
//! processes, and reads the clock. An operation that needs such work in its middle comes in steps:
//! one that says what to do, and one that takes what came of it.

use crate::fake::record::{
    recover_container, ContainerRecord, ContainerRecordView, ImageDiskRecord, ImageDiskRecordView,
    SandboxRecord, SandboxRecordView,
};
use crate::text_map::TextMap;
use vstd::prelude::*;

pub mod container;
pub mod disk;
pub mod exec;
pub mod history;
pub mod image;
pub mod record;
pub mod remove;
pub mod sandbox;
pub mod spawn;
pub mod start;
pub mod stats;
pub mod stop;

verus! {

/// Which ends of a running container's standard streams are held.
#[derive(Clone, Copy, Debug, PartialEq, Eq, Structural)]
pub struct ContainerIo {
    /// The controlling side of its terminal.
    pub pty_master: bool,
    pub stdout: bool,
    pub stderr: bool,
    pub stdin: bool,
}

impl View for ContainerIo {
    type V = ContainerIo;

    open spec fn view(&self) -> ContainerIo {
        *self
    }
}

/// The state of the backend. All but the table of held streams is a copy of what the files say.
#[derive(Debug)]
pub struct FakeBackend {
    state_root: String,
    sandboxes: TextMap<SandboxRecord>,
    containers: TextMap<ContainerRecord>,
    images: TextMap<ImageDiskRecord>,
    io_table: TextMap<ContainerIo>,
}

/// What a [`FakeBackend`] holds.
#[verifier::ext_equal]
pub struct BackendView {
    pub state_root: Seq<char>,
    pub sandboxes: Map<Seq<char>, SandboxRecordView>,
    pub containers: Map<Seq<char>, ContainerRecordView>,
    pub images: Map<Seq<char>, ImageDiskRecordView>,
    /// The containers that this process started and whose streams it holds.
    pub io: Map<Seq<char>, ContainerIo>,
}

impl BackendView {
    /// There are finitely many records, and each stands under its own name.
    pub open spec fn wf(self) -> bool {
        &&& self.sandboxes.dom().finite()
        &&& self.containers.dom().finite()
        &&& self.images.dom().finite()
        &&& forall|k: Seq<char>| #[trigger]
            self.sandboxes.dom().contains(k) ==> self.sandboxes[k].id == k
        &&& forall|k: Seq<char>| #[trigger]
            self.containers.dom().contains(k) ==> self.containers[k].id == k
        &&& forall|k: Seq<char>| #[trigger]
            self.images.dom().contains(k) ==> self.images[k].id == k
    }

    /// With this record of a sandbox, in place of an older one.
    pub open spec fn put_sandbox(self, rec: SandboxRecordView) -> BackendView {
        BackendView { sandboxes: self.sandboxes.insert(rec.id, rec), ..self }
    }

    /// With this record of a container, in place of an older one.
    pub open spec fn put_container(self, rec: ContainerRecordView) -> BackendView {
        BackendView { containers: self.containers.insert(rec.id, rec), ..self }
    }

    /// With this record of an image, in place of an older one.
    pub open spec fn put_image(self, rec: ImageDiskRecordView) -> BackendView {
        BackendView { images: self.images.insert(rec.id, rec), ..self }
    }

    /// With these streams of a container held.
    pub open spec fn put_io(self, id: Seq<char>, io: ContainerIo) -> BackendView {
        BackendView { io: self.io.insert(id, io), ..self }
    }

    /// Without the sandbox.
    pub open spec fn drop_sandbox(self, id: Seq<char>) -> BackendView {
        BackendView { sandboxes: self.sandboxes.remove(id), ..self }
    }

    /// Without the container, and with none of its streams held.
    pub open spec fn drop_container(self, id: Seq<char>) -> BackendView {
        BackendView { containers: self.containers.remove(id), io: self.io.remove(id), ..self }
    }

    /// Without the image.
    pub open spec fn drop_image(self, id: Seq<char>) -> BackendView {
        BackendView { images: self.images.remove(id), ..self }
    }

    /// With none of the container's streams held.
    pub open spec fn drop_io(self, id: Seq<char>) -> BackendView {
        BackendView { io: self.io.remove(id), ..self }
    }
}

impl View for FakeBackend {
    type V = BackendView;

    closed spec fn view(&self) -> BackendView {
        BackendView {
            state_root: self.state_root@,
            sandboxes: self.sandboxes@,
            containers: self.containers@,
            images: self.images@,
            io: self.io_table@,
        }
    }
}

/// A container's record as it was found, with what was found of its process.
#[derive(Debug)]
pub struct FoundContainer {
    pub rec: ContainerRecord,
    pub alive: bool,
    pub now_nanos: i64,
}

impl FoundContainer {
    /// The record brought up to date.
    pub open spec fn recovered(self) -> ContainerRecordView {
        crate::fake::record::recovered(self.rec@, self.alive, self.now_nanos)
    }
}

/// Sandbox records by name; of two with the same name the later counts.
pub open spec fn index_sandboxes(recs: Seq<SandboxRecordView>) -> Map<Seq<char>, SandboxRecordView> {
    crate::text_map::indexed(recs, |r: SandboxRecordView| r.id)
}

/// Container records by name; of two with the same name the later counts.
pub open spec fn index_containers(recs: Seq<ContainerRecordView>) -> Map<
    Seq<char>,
    ContainerRecordView,
> {
    crate::text_map::indexed(recs, |r: ContainerRecordView| r.id)
}

/// Image records by name; of two with the same name the later counts.
pub open spec fn index_images(recs: Seq<ImageDiskRecordView>) -> Map<
    Seq<char>,
    ImageDiskRecordView,
> {
    crate::text_map::indexed(recs, |r: ImageDiskRecordView| r.id)
}

/// The records found, brought up to date.
pub open spec fn recovered_all(found: Seq<FoundContainer>) -> Seq<ContainerRecordView> {
    found.map_values(|f: FoundContainer| f.recovered())
}

/// The records that reading them back changed.
pub open spec fn corrections(found: Seq<FoundContainer>) -> Seq<ContainerRecordView> {
    recovered_all(found.filter(|f: FoundContainer| crate::fake::record::is_lost(f.rec@, f.alive)))
}

/// The state made of the records found. No streams are held.
pub open spec fn opened(
    state_root: Seq<char>,
    sandboxes: Seq<SandboxRecordView>,
    containers: Seq<FoundContainer>,
    images: Seq<ImageDiskRecordView>,
) -> BackendView {
    BackendView {
        state_root,
        sandboxes: index_sandboxes(sandboxes),
        containers: index_containers(recovered_all(containers)),
        images: index_images(images),
        io: Map::empty(),
    }
}

impl FakeBackend {
    /// Rebuilds the state from the records found under `state_root`. No streams are held. Besides
    /// the backend come the records that have to be written again.
    pub fn open(
        state_root: String,
        sandboxes: &Vec<SandboxRecord>,
        containers: &Vec<FoundContainer>,
        images: &Vec<ImageDiskRecord>,
    ) -> (r: (FakeBackend, Vec<ContainerRecord>))
        ensures
            r.0@.wf(),
            r.0@ == opened(
                state_root@,
                sandboxes.deep_view(),
                containers@,
                images.deep_view(),
            ),
            r.1.deep_view() == corrections(containers@),
    {
        let mut by_sandbox: TextMap<SandboxRecord> = TextMap::new();
        let mut i: usize = 0;
        assert(sandboxes.deep_view().take(0) =~= Seq::empty());
        while i < sandboxes.len()
            invariant
                i <= sandboxes@.len(),
                by_sandbox@ == index_sandboxes(sandboxes.deep_view().take(i as int)),
                by_sandbox@.dom().finite(),
                forall|k: Seq<char>| #[trigger]
                    by_sandbox@.dom().contains(k) ==> by_sandbox@[k].id == k,
            decreases sandboxes@.len() - i,
        {
            let rec = sandboxes[i].clone();
            proof {
                let s = sandboxes.deep_view();
                assert(s.take(i + 1).drop_last() =~= s.take(i as int));
                assert(s.take(i + 1).last() == rec@);
            }
            by_sandbox.insert(rec.id.0.clone(), rec);
            i = i + 1;
        }
        assert(sandboxes.deep_view().take(i as int) =~= sandboxes.deep_view());

        let ghost lost = |f: FoundContainer| crate::fake::record::is_lost(f.rec@, f.alive);
        let mut by_container: TextMap<ContainerRecord> = TextMap::new();
        let mut rewrites: Vec<ContainerRecord> = Vec::new();
        let mut j: usize = 0;
        proof {
            reveal(Seq::filter);
            assert(recovered_all(containers@.take(0)) =~= Seq::empty());
            assert(rewrites.deep_view() =~= recovered_all(containers@.take(0).filter(lost)));
        }
        while j < containers.len()
            invariant
                j <= containers@.len(),
                lost == (|f: FoundContainer| crate::fake::record::is_lost(f.rec@, f.alive)),
                by_container@ == index_containers(recovered_all(containers@.take(j as int))),
                rewrites.deep_view() == recovered_all(containers@.take(j as int).filter(lost)),
                by_container@.dom().finite(),
                forall|k: Seq<char>| #[trigger]
                    by_container@.dom().contains(k) ==> by_container@[k].id == k,
            decreases containers@.len() - j,
        {
            let found = &containers[j];
            let (rec, changed) = recover_container(found.rec.clone(), found.alive, found.now_nanos);
            let ghost before = rewrites.deep_view();
            proof {
                crate::seqs::lemma_filter_take(containers@, lost, j as int);
                let t = recovered_all(containers@.take(j + 1));
                assert(t.drop_last() =~= recovered_all(containers@.take(j as int)));
                assert(t.last() == rec@);
            }
            if changed {
                rewrites.push(rec.clone());
                assert(rewrites.deep_view() =~= before.push(rec@));
                assert(rewrites.deep_view() =~= recovered_all(
                    containers@.take(j + 1).filter(lost),
                ));
            }
            by_container.insert(rec.id.0.clone(), rec);
            j = j + 1;
        }
        assert(containers@.take(j as int) =~= containers@);

        let mut by_image: TextMap<ImageDiskRecord> = TextMap::new();
        let mut n: usize = 0;
        assert(images.deep_view().take(0) =~= Seq::empty());
        while n < images.len()
            invariant
                n <= images@.len(),
                by_image@ == index_images(images.deep_view().take(n as int)),
                by_image@.dom().finite(),
                forall|k: Seq<char>| #[trigger]
                    by_image@.dom().contains(k) ==> by_image@[k].id == k,
            decreases images@.len() - n,
        {
            let rec = images[n].clone();
            proof {
                let s = images.deep_view();
                assert(s.take(n + 1).drop_last() =~= s.take(n as int));
                assert(s.take(n + 1).last() == rec@);
            }
            by_image.insert(rec.id.clone(), rec);
            n = n + 1;
        }
        assert(images.deep_view().take(n as int) =~= images.deep_view());

        let backend = FakeBackend {
            state_root,
            sandboxes: by_sandbox,
            containers: by_container,
            images: by_image,
            io_table: TextMap::new(),
        };
        (backend, rewrites)
    }

    fn store_sandbox(&mut self, rec: SandboxRecord)
        requires
            old(self)@.wf(),
        ensures
            final(self)@.wf(),
            final(self)@ == old(self)@.put_sandbox(rec@),
    {
        self.sandboxes.insert(rec.id.0.clone(), rec);
        assert forall|k: Seq<char>| #[trigger] self@.sandboxes.dom().contains(k) implies
            self@.sandboxes[k].id == k by {
            if k != rec@.id {
                assert(old(self)@.sandboxes.dom().contains(k));
            }
        }
        assert(self@ =~= old(self)@.put_sandbox(rec@));
    }

    fn store_container(&mut self, rec: ContainerRecord)
        requires
            old(self)@.wf(),
        ensures
            final(self)@.wf(),
            final(self)@ == old(self)@.put_container(rec@),
    {
        self.containers.insert(rec.id.0.clone(), rec);
        assert forall|k: Seq<char>| #[trigger] self@.containers.dom().contains(k) implies
            self@.containers[k].id == k by {
            if k != rec@.id {
                assert(old(self)@.containers.dom().contains(k));
            }
        }
        assert(self@ =~= old(self)@.put_container(rec@));
    }

    fn store_image(&mut self, rec: ImageDiskRecord)
        requires
            old(self)@.wf(),
        ensures
            final(self)@.wf(),
            final(self)@ == old(self)@.put_image(rec@),
    {
        self.images.insert(rec.id.clone(), rec);
        assert forall|k: Seq<char>| #[trigger] self@.images.dom().contains(k) implies
            self@.images[k].id == k by {
            if k != rec@.id {
                assert(old(self)@.images.dom().contains(k));
            }
        }
        assert(self@ =~= old(self)@.put_image(rec@));
    }
}

/// A state that is opened holds no streams, and each container as its record says, brought up to
/// date; of two records of one name the last counts.
pub proof fn law_opening_brings_records_up_to_date(
    state_root: Seq<char>,
    sandboxes: Seq<SandboxRecordView>,
    found: Seq<FoundContainer>,
    images: Seq<ImageDiskRecordView>,
    i: int,
)
    requires
        0 <= i < found.len(),
        forall|j: int| i < j < found.len() ==> (#[trigger] found[j]).rec@.id != found[i].rec@.id,
    ensures
        ({
            let b = opened(state_root, sandboxes, found, images);
            let rec = found[i].rec@;
            &&& b.state_root == state_root
            &&& b.io.dom() == Set::<Seq<char>>::empty()
            &&& b.containers.dom().contains(rec.id)
            &&& rec.state != crate::types::ContainerState::Running ==> b.containers[rec.id] == rec
            &&& found[i].alive && rec.pid > 0 ==> b.containers[rec.id] == rec
            &&& rec.state == crate::types::ContainerState::Running && (!found[i].alive || rec.pid == 0)
                ==> b.containers[rec.id].state == crate::types::ContainerState::Exited
                && b.containers[rec.id].exit_code == -1 && b.containers[rec.id].config == rec.config
        }),
{
    lemma_last_record_counts(recovered_all(found), i);
}

proof fn lemma_last_record_counts(recs: Seq<ContainerRecordView>, i: int)
    requires
        0 <= i < recs.len(),
        forall|j: int| i < j < recs.len() ==> (#[trigger] recs[j]).id != recs[i].id,
    ensures
        index_containers(recs).dom().contains(recs[i].id),
        index_containers(recs)[recs[i].id] == recs[i],
    decreases recs.len(),
{
    if i < recs.len() - 1 {
        let front = recs.drop_last();
        assert(front[i] == recs[i]);
        assert forall|j: int| i < j < front.len() implies (#[trigger] front[j]).id != front[i].id by {
            assert(front[j] == recs[j]);
        }
        lemma_last_record_counts(front, i);
        assert(recs.last() == recs[recs.len() - 1]);
    }
}

/// Whether a container was found that should run and has no process.
pub open spec fn was_lost(f: FoundContainer) -> bool {
    f.rec@.state == crate::types::ContainerState::Running && (f.rec@.pid == 0 || !f.alive)
}

/// The records that are written again are those of the containers that were lost, and no others; each
/// says that its container has exited.
pub proof fn law_only_the_lost_are_corrected(found: Seq<FoundContainer>, rec: ContainerRecordView)
    ensures
        corrections(found).contains(rec) ==> rec.state == crate::types::ContainerState::Exited
            && rec.exit_code == -1 && exists|i: int|
            0 <= i < found.len() && (#[trigger] found[i]).rec@.id == rec.id && was_lost(found[i]),
        forall|i: int|
            0 <= i < found.len() && was_lost(#[trigger] found[i]) ==> corrections(found).contains(
                found[i].recovered(),
            ),
    decreases found.len(),
{
    reveal(Seq::filter);
    let lost = |f: FoundContainer| crate::fake::record::is_lost(f.rec@, f.alive);
    if found.len() > 0 {
        let front = found.drop_last();
        law_only_the_lost_are_corrected(front, rec);
        let before = corrections(front);
        let all = corrections(found);
        let f = found.last();
        crate::seqs::lemma_filter_push(front, lost, f);
        assert(front.push(f) =~= found);
        if lost(f) {
            assert(all =~= before.push(f.recovered()));
        } else {
            assert(all =~= before);
        }
        if all.contains(rec) {
            let k = all.index_of(rec);
            if k < before.len() {
                assert(before[k] == rec);
                assert(before.contains(rec));
                let i = choose|i: int|
                    0 <= i < front.len() && (#[trigger] front[i]).rec@.id == rec.id && was_lost(
                        front[i],
                    );
                assert(found[i] == front[i]);
            } else {
                assert(found[found.len() - 1] == f);
            }
        }
        assert forall|i: int|
            0 <= i < found.len() && was_lost(#[trigger] found[i]) implies all.contains(
            found[i].recovered(),
        ) by {
            if i < front.len() {
                assert(front[i] == found[i]);
                assert(before.contains(front[i].recovered()));
                let k = before.index_of(front[i].recovered());
                assert(all[k] == before[k]);
            } else {
                assert(all[all.len() - 1] == f.recovered());
            }
        }
    } else {
        assert(corrections(found) =~= Seq::empty());
    }
}

/// A record is kept under its own name: it is found there, all other records stay, and so does
/// everything of another kind.
pub proof fn law_records_are_kept_by_name(
    b: BackendView,
    sandbox: SandboxRecordView,
    container: ContainerRecordView,
    image: ImageDiskRecordView,
    id: Seq<char>,
    io: ContainerIo,
    k: Seq<char>,
)
    ensures
        ({
            let w = b.put_sandbox(sandbox);
            &&& w.sandboxes.dom().contains(sandbox.id) && w.sandboxes[sandbox.id] == sandbox
            &&& k != sandbox.id ==> (w.sandboxes.dom().contains(k) <==> b.sandboxes.dom().contains(
                k,
            )) && w.sandboxes[k] == b.sandboxes[k]
            &&& w.containers == b.containers && w.images == b.images && w.io == b.io
                && w.state_root == b.state_root
        }),
        ({
            let w = b.put_container(container);
            &&& w.containers.dom().contains(container.id) && w.containers[container.id] == container
            &&& k != container.id ==> (w.containers.dom().contains(k)
                <==> b.containers.dom().contains(k)) && w.containers[k] == b.containers[k]
            &&& w.sandboxes == b.sandboxes && w.images == b.images && w.io == b.io && w.state_root
                == b.state_root
        }),
        ({
            let w = b.put_image(image);
            &&& w.images.dom().contains(image.id) && w.images[image.id] == image
            &&& k != image.id ==> (w.images.dom().contains(k) <==> b.images.dom().contains(k))
                && w.images[k] == b.images[k]
            &&& w.sandboxes == b.sandboxes && w.containers == b.containers && w.io == b.io
                && w.state_root == b.state_root
        }),
        ({
            let w = b.put_io(id, io);
            &&& w.io.dom().contains(id) && w.io[id] == io
            &&& k != id ==> (w.io.dom().contains(k) <==> b.io.dom().contains(k)) && w.io[k]
                == b.io[k]
            &&& w.sandboxes == b.sandboxes && w.containers == b.containers && w.images == b.images
                && w.state_root == b.state_root
        }),
{
}

/// What is dropped is gone, and nothing else is: a container goes with its streams, a sandbox and an
/// image go alone.
pub proof fn law_only_what_is_dropped_is_gone(b: BackendView, id: Seq<char>, k: Seq<char>)
    requires
        k != id,
    ensures
        ({
            let w = b.drop_sandbox(id);
            &&& !w.sandboxes.dom().contains(id)
            &&& w.sandboxes.dom().contains(k) <==> b.sandboxes.dom().contains(k)
            &&& w.sandboxes[k] == b.sandboxes[k]
            &&& w.containers == b.containers && w.images == b.images && w.io == b.io
                && w.state_root == b.state_root
        }),
        ({
            let w = b.drop_image(id);
            &&& !w.images.dom().contains(id)
            &&& w.images.dom().contains(k) <==> b.images.dom().contains(k)
            &&& w.images[k] == b.images[k]
            &&& w.sandboxes == b.sandboxes && w.containers == b.containers && w.io == b.io
                && w.state_root == b.state_root
        }),
        ({
            let w = b.drop_io(id);
            &&& !w.io.dom().contains(id)
            &&& w.io.dom().contains(k) <==> b.io.dom().contains(k)
            &&& w.io[k] == b.io[k]
            &&& w.sandboxes == b.sandboxes && w.containers == b.containers && w.images == b.images
                && w.state_root == b.state_root
        }),
{
}

} // verus!
