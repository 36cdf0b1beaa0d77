//! What the files say, and how it changes.

use crate::fake::record::{ContainerRecordView, ImageDiskRecordView, SandboxRecordView};
use crate::fake::{BackendView, FoundContainer};
use crate::types::{BackendError, BackendErrorView};
use vstd::prelude::*;
use vstd::string::*;

verus! {

/// Why a record could not be written.
#[derive(Debug)]
pub enum WriteFault {
    /// It could not be encoded.
    Serialize(String),
    /// The file could not be written or put in place.
    Io(String),
}

/// What a failed write is reported as.
pub open spec fn write_error_of(f: WriteFault) -> BackendErrorView {
    match f {
        WriteFault::Serialize(e) => BackendErrorView::Internal("serialize: "@ + e@),
        WriteFault::Io(e) => BackendErrorView::Io(e@),
    }
}

/// What a failed write is reported as.
pub fn write_error(f: WriteFault) -> (r: BackendError)
    ensures
        r@ == write_error_of(f),
{
    match f {
        WriteFault::Serialize(e) => {
            let mut m = "serialize: ".to_owned();
            m.append(e.as_str());
            BackendError::Internal(m)
        },
        WriteFault::Io(e) => BackendError::Io(e),
    }
}

/// The outcome of an operation that ends with a write.
pub fn write_result(written: Result<(), WriteFault>) -> (r: Result<(), BackendError>)
    ensures
        r is Ok <==> written is Ok,
        r matches Err(e) ==> (written matches Err(f) && e@ == write_error_of(f)),
{
    match written {
        Ok(_) => Ok(()),
        Err(f) => Err(write_error(f)),
    }
}

/// What the record files say, by name.
#[verifier::ext_equal]
pub struct DiskView {
    pub sandboxes: Map<Seq<char>, SandboxRecordView>,
    pub containers: Map<Seq<char>, ContainerRecordView>,
    pub images: Map<Seq<char>, ImageDiskRecordView>,
}

impl DiskView {
    /// After the file of a sandbox was written.
    pub open spec fn wrote_sandbox(self, rec: SandboxRecordView) -> DiskView {
        DiskView { sandboxes: self.sandboxes.insert(rec.id, rec), ..self }
    }

    /// After the file of a container was written.
    pub open spec fn wrote_container(self, rec: ContainerRecordView) -> DiskView {
        DiskView { containers: self.containers.insert(rec.id, rec), ..self }
    }

    /// After the file of an image was written.
    pub open spec fn wrote_image(self, rec: ImageDiskRecordView) -> DiskView {
        DiskView { images: self.images.insert(rec.id, rec), ..self }
    }

    /// After the file of a sandbox was deleted.
    pub open spec fn dropped_sandbox(self, id: Seq<char>) -> DiskView {
        DiskView { sandboxes: self.sandboxes.remove(id), ..self }
    }

    /// After the file of a container was deleted.
    pub open spec fn dropped_container(self, id: Seq<char>) -> DiskView {
        DiskView { containers: self.containers.remove(id), ..self }
    }

    /// After the file of an image was deleted.
    pub open spec fn dropped_image(self, id: Seq<char>) -> DiskView {
        DiskView { images: self.images.remove(id), ..self }
    }
}

impl BackendView {
    /// What the files say when they say the same as the backend.
    pub open spec fn disk(self) -> DiskView {
        DiskView { sandboxes: self.sandboxes, containers: self.containers, images: self.images }
    }
}

/// To take a record in and to write it, or to drop one and delete its file, keeps the files in step
/// with the backend.
pub proof fn law_files_keep_in_step(
    b: BackendView,
    sandbox: SandboxRecordView,
    container: ContainerRecordView,
    image: ImageDiskRecordView,
    id: Seq<char>,
)
    ensures
        b.put_sandbox(sandbox).disk() == b.disk().wrote_sandbox(sandbox),
        b.put_container(container).disk() == b.disk().wrote_container(container),
        b.put_image(image).disk() == b.disk().wrote_image(image),
        b.drop_sandbox(id).disk() == b.disk().dropped_sandbox(id),
        b.drop_container(id).disk() == b.disk().dropped_container(id),
        b.drop_image(id).disk() == b.disk().dropped_image(id),
{
}

/// Whoever opens the state again finds what the files say, in whatever order they are read:
/// nothing is lost, and only containers whose process is gone have changed.
pub proof fn law_reopening_restores_the_state(
    disk: DiskView,
    sandboxes: Seq<SandboxRecordView>,
    found: Seq<FoundContainer>,
    images: Seq<ImageDiskRecordView>,
)
    requires
        crate::text_map::enumerates(
            sandboxes,
            |r: SandboxRecordView| r.id,
            disk.sandboxes,
        ),
        crate::text_map::enumerates(
            found.map_values(|f: FoundContainer| f.rec@),
            |r: ContainerRecordView| r.id,
            disk.containers,
        ),
        crate::text_map::enumerates(images, |r: ImageDiskRecordView| r.id, disk.images),
    ensures
        crate::fake::index_sandboxes(sandboxes) == disk.sandboxes,
        crate::fake::index_images(images) == disk.images,
        (forall|i: int|
            0 <= i < found.len() ==> !crate::fake::record::is_lost(
                (#[trigger] found[i]).rec@,
                found[i].alive,
            )) ==> crate::fake::index_containers(crate::fake::recovered_all(found))
            == disk.containers,
        crate::fake::index_containers(crate::fake::recovered_all(found)).dom()
            == disk.containers.dom(),
{
    crate::text_map::lemma_indexed_restores(
        sandboxes,
        |r: SandboxRecordView| r.id,
        disk.sandboxes,
    );
    crate::text_map::lemma_indexed_restores(images, |r: ImageDiskRecordView| r.id, disk.images);
    let recs = found.map_values(|f: FoundContainer| f.rec@);
    let all = crate::fake::recovered_all(found);
    let name = |r: ContainerRecordView| r.id;
    crate::text_map::lemma_indexed_restores(recs, name, disk.containers);
    if forall|i: int|
        0 <= i < found.len() ==> !crate::fake::record::is_lost(
            (#[trigger] found[i]).rec@,
            found[i].alive,
        ) {
        assert forall|i: int| 0 <= i < found.len() implies #[trigger] all[i] == recs[i] by {
            assert(!crate::fake::record::is_lost(found[i].rec@, found[i].alive));
        }
        assert(all =~= recs);
    }
    assert forall|k: Seq<char>| #[trigger]
        crate::fake::index_containers(all).dom().contains(k) <==> disk.containers.dom().contains(
            k,
        ) by {
        crate::text_map::lemma_indexed_dom(all, name, k);
        crate::text_map::lemma_indexed_dom(recs, name, k);
        if crate::text_map::is_named(all, name, k) {
            let i = choose|i: int| 0 <= i < all.len() && name(#[trigger] all[i]) == k;
            assert(name(recs[i]) == k);
        }
        if crate::text_map::is_named(recs, name, k) {
            let i = choose|i: int| 0 <= i < recs.len() && name(#[trigger] recs[i]) == k;
            assert(name(all[i]) == k);
        }
    }
    assert(crate::fake::index_containers(all).dom() =~= disk.containers.dom());
}

/// A file that could not be written is reported as such, with what went wrong; a record that could
/// not be put into words is an internal error.
pub proof fn law_write_faults_are_told_apart(fault: String)
    ensures
        write_error_of(WriteFault::Io(fault)) == BackendErrorView::Io(fault@),
        write_error_of(WriteFault::Serialize(fault)) matches BackendErrorView::Internal(m)
            && fault@.is_suffix_of(m),
{
    let m = "serialize: "@ + fault@;
    assert(m.subrange(m.len() - fault@.len(), m.len() as int) =~= fault@);
}

} // verus!
