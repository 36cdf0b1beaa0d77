//! Images: pulled, reported, listed and removed. Pulling fetches nothing; it makes a record whose
//! root digest stands for the reference.

use crate::fake::disk::{write_error, WriteFault};
use crate::fake::record::{
    image_rec_to_status, ContainerRecordView, ImageDiskRecord, ImageDiskRecordView,
};
use crate::fake::{BackendView, FakeBackend};
use crate::text::{hex_text, join3, same_text};
use crate::types::{
    BackendError, BackendErrorView, ContainerState, FsInfo, FsInfoView, ImageRecord,
    ImageRecordView, PulledImage, PulledImageView,
};
use vstd::prelude::*;
use vstd::string::*;

verus! {

/// The BLAKE3 digest of the bytes.
pub uninterp spec fn blake3_digest(input: Seq<u8>) -> Seq<u8>;

/// Calls `blake3::hash` and takes the digest's 32 bytes. The digest depends on the bytes alone;
/// nothing else is claimed of it.
#[verifier::external_body]
fn blake3_hash(input: &[u8]) -> (r: [u8; 32])
    ensures
        r@ == blake3_digest(input@),
{
    *blake3::hash(input).as_bytes()
}

/// The text in quotation marks, with what cannot be printed escaped.
pub uninterp spec fn quoted(s: Seq<char>) -> Seq<char>;

/// Formats the text as `std::fmt::Debug` does. What comes out depends on the text alone; nothing
/// else is claimed of it.
#[verifier::external_body]
fn quote(s: &str) -> (r: String)
    ensures
        r@ == quoted(s@),
{
    format!("{s:?}")
}

/// Space, tab, line feed, form feed and carriage return.
pub open spec fn is_ascii_space(c: char) -> bool {
    c == ' ' || c == '\t' || c == '\n' || c == '\x0C' || c == '\r'
}

/// Whether the text can refer to an image: it is not empty and has no white space in it.
pub open spec fn is_image_ref(s: Seq<char>) -> bool {
    s.len() > 0 && forall|i: int| 0 <= i < s.len() ==> !is_ascii_space(#[trigger] s[i])
}

/// Whether the text can refer to an image.
pub fn image_ref_ok(image_ref: &str) -> (r: bool)
    ensures
        r == is_image_ref(image_ref@),
{
    let n = image_ref.unicode_len();
    let mut i: usize = 0;
    while i < n
        invariant
            i <= n,
            n == image_ref@.len(),
            forall|j: int| 0 <= j < i ==> !is_ascii_space(#[trigger] image_ref@[j]),
        decreases n - i,
    {
        let c = image_ref.get_char(i);
        if c == ' ' || c == '\t' || c == '\n' || c == '\x0C' || c == '\r' {
            assert(is_ascii_space(image_ref@[i as int]));
            return false;
        }
        i = i + 1;
    }
    n > 0
}

/// What a text that refers to no image is answered, given the text in quotation marks.
pub open spec fn bad_ref(quoted_ref: Seq<char>) -> BackendErrorView {
    BackendErrorView::InvalidArgument(
        "image_ref "@ + quoted_ref + " is empty or contains whitespace"@,
    )
}

/// What a text that refers to no image is answered, given the text in quotation marks.
pub fn bad_ref_error(quoted_ref: &str) -> (r: BackendError)
    ensures
        r@ == bad_ref(quoted_ref@),
{
    BackendError::InvalidArgument(
        join3("image_ref ", quoted_ref, " is empty or contains whitespace"),
    )
}

/// The name of an image with the digest: its first eight bytes.
pub open spec fn image_id(digest: Seq<u8>) -> Seq<char> {
    "sha-"@ + crate::text::hex(digest).take(16)
}

/// The record of an image that is pulled. Its size is that of the reference.
pub open spec fn pulled_record(image_ref: Seq<char>, digest: Seq<u8>) -> ImageDiskRecordView {
    ImageDiskRecordView {
        id: image_id(digest),
        ref_name: image_ref,
        size: vstd::utf8::encode_utf8(image_ref).len() as u64,
    }
}

/// What is reported of an image that is pulled.
pub open spec fn pulled(image_ref: Seq<char>, digest: Seq<u8>) -> PulledImageView {
    PulledImageView {
        ref_name: image_ref,
        root_hex: crate::text::hex(digest),
        total_size: vstd::utf8::encode_utf8(image_ref).len() as u64,
    }
}

/// Makes the record and the report of an image whose reference has the digest.
pub fn pull_image_with(image_ref: &str, digest: [u8; 32]) -> (r: (ImageDiskRecord, PulledImage))
    ensures
        r.0@ == pulled_record(image_ref@, digest@),
        r.1@ == pulled(image_ref@, digest@),
{
    let root_hex = hex_text(&digest);
    let total_size = image_ref.as_bytes().len() as u64;
    assert(root_hex@.len() == 64);
    let mut id = "sha-".to_owned();
    id.append(root_hex.as_str().substring_char(0, 16));
    assert(root_hex@.subrange(0, 16) =~= root_hex@.take(16));
    let rec = ImageDiskRecord { id, ref_name: image_ref.to_owned(), size: total_size };
    (rec, PulledImage { ref_name: image_ref.to_owned(), root_hex, total_size })
}

/// The images with the reference.
pub open spec fn has_ref(image_ref: Seq<char>) -> spec_fn(ImageDiskRecordView) -> bool {
    |rec: ImageDiskRecordView| rec.ref_name == image_ref
}

/// The containers that keep the image with the reference in use: all that have not exited.
pub open spec fn uses_ref(image_ref: Seq<char>) -> spec_fn(ContainerRecordView) -> bool {
    |rec: ContainerRecordView|
        rec.config.image_ref == image_ref && rec.state != ContainerState::Exited
}

/// An image that is in use cannot be removed.
pub open spec fn in_use(image_ref: Seq<char>, container: Seq<char>) -> BackendErrorView {
    BackendErrorView::InUse(
        "image "@ + image_ref + " referenced by container "@ + container,
    )
}

impl BackendView {
    /// The name of the image with the reference, if there is one.
    pub open spec fn find_image(self, image_ref: Seq<char>) -> Option<Seq<char>> {
        crate::text_map::first_picked(self.images, has_ref(image_ref))
    }

    /// The first container that keeps the image with the reference in use.
    pub open spec fn find_user(self, image_ref: Seq<char>) -> Option<Seq<char>> {
        crate::text_map::first_picked(self.containers, uses_ref(image_ref))
    }
}

impl BackendView {
    /// All images as they are listed: in the ascending order of their names.
    pub open spec fn listed_images(self) -> Seq<ImageRecordView> {
        crate::text_map::sorted(self.images.dom()).map_values(
            |k: Seq<char>| crate::fake::record::image_status_of(self.images[k]),
        )
    }
}

impl BackendView {
    /// What is reported of the image with the reference, if there is one.
    pub open spec fn image_reported(self, image_ref: Seq<char>) -> Option<ImageRecordView> {
        match self.find_image(image_ref) {
            Some(id) => Some(crate::fake::record::image_status_of(self.images[id])),
            None => None,
        }
    }

    /// After an image is taken in, where its record was written, and why it was not.
    pub open spec fn image_taken_in(
        self,
        rec: ImageDiskRecordView,
        written: Result<(), WriteFault>,
    ) -> (BackendView, Option<BackendErrorView>) {
        match written {
            Ok(_) => (self.put_image(rec), None),
            Err(f) => (self, Some(crate::fake::disk::write_error_of(f))),
        }
    }

    /// After the image was removed, unless it is in use, and the name that it had, if there was one.
    pub open spec fn image_removed(self, image_ref: Seq<char>) -> (
        BackendView,
        Result<Option<Seq<char>>, BackendErrorView>,
    ) {
        match self.find_image(image_ref) {
            None => (self, Ok(None)),
            Some(id) => match self.find_user(image_ref) {
                Some(c) => (self, Err(in_use(image_ref, c))),
                None => (self.drop_image(id), Ok(Some(id))),
            },
        }
    }
}

impl FakeBackend {
    /// Makes the record and the report of the image. The record is to be written, and both handed to
    /// [`FakeBackend::pull_image_written`].
    pub fn pull_image(&self, image_ref: &str) -> (r: Result<
        (ImageDiskRecord, PulledImage),
        BackendError,
    >)
        ensures
            match r {
                Ok((rec, report)) => {
                    let digest = blake3_digest(vstd::utf8::encode_utf8(image_ref@));
                    &&& is_image_ref(image_ref@)
                    &&& rec@ == pulled_record(image_ref@, digest)
                    &&& report@ == pulled(image_ref@, digest)
                },
                Err(e) => !is_image_ref(image_ref@) && e@ == bad_ref(quoted(image_ref@)),
            },
    {
        if !image_ref_ok(image_ref) {
            return Err(bad_ref_error(quote(image_ref).as_str()));
        }
        let digest = blake3_hash(image_ref.as_bytes());
        Ok(pull_image_with(image_ref, digest))
    }

    /// Takes the image in, where its record was written.
    pub fn pull_image_written(
        &mut self,
        rec: ImageDiskRecord,
        report: PulledImage,
        written: Result<(), WriteFault>,
    ) -> (r: Result<PulledImage, BackendError>)
        requires
            old(self)@.wf(),
        ensures
            final(self)@.wf(),
            final(self)@ == old(self)@.image_taken_in(rec@, written).0,
            match old(self)@.image_taken_in(rec@, written).1 {
                None => r == Ok::<PulledImage, BackendError>(report),
                Some(e) => r matches Err(x) && x@ == e,
            },
    {
        match written {
            Err(f) => Err(write_error(f)),
            Ok(_) => {
                self.store_image(rec);
                Ok(report)
            },
        }
    }

    fn find_image(&self, image_ref: &str) -> (r: Option<usize>)
        ensures
            match r {
                Some(i) => i < self.images.keys().len() && self@.find_image(image_ref@) == Some(
                    self.images.keys()[i as int],
                ),
                None => self@.find_image(image_ref@) is None,
            },
    {
        let ghost m = self.images@;
        let ghost p = has_ref(image_ref@);
        let ghost q = |k: Seq<char>| p(m[k]);
        let ghost keys = self.images.keys();
        let n = self.images.len();
        let mut i: usize = 0;
        while i < n
            invariant
                i <= n,
                n == keys.len(),
                keys == self.images.keys(),
                crate::text_map::ascending(keys),
                self.images.keys_are_dom(),
                m == self.images@,
                p == has_ref(image_ref@),
                q == (|k: Seq<char>| p(m[k])),
                forall|j: int| 0 <= j < i ==> !q(#[trigger] keys[j]),
            decreases n - i,
        {
            let (_, rec) = self.images.at(i);
            if same_text(rec.ref_name.as_str(), image_ref) {
                proof {
                    crate::seqs::lemma_filter_first(keys, q, i as int);
                    crate::text_map::lemma_listing(keys, m, p, |r: ImageDiskRecordView| r);
                }
                return Some(i);
            }
            i = i + 1;
        }
        proof {
            crate::seqs::lemma_filter_none(keys, q);
            crate::text_map::lemma_listing(keys, m, p, |r: ImageDiskRecordView| r);
        }
        None
    }

    fn find_user(&self, image_ref: &str) -> (r: Option<usize>)
        ensures
            match r {
                Some(i) => i < self.containers.keys().len() && self@.find_user(image_ref@) == Some(
                    self.containers.keys()[i as int],
                ),
                None => self@.find_user(image_ref@) is None,
            },
    {
        let ghost m = self.containers@;
        let ghost p = uses_ref(image_ref@);
        let ghost q = |k: Seq<char>| p(m[k]);
        let ghost keys = self.containers.keys();
        let n = self.containers.len();
        let mut i: usize = 0;
        while i < n
            invariant
                i <= n,
                n == keys.len(),
                keys == self.containers.keys(),
                crate::text_map::ascending(keys),
                self.containers.keys_are_dom(),
                m == self.containers@,
                p == uses_ref(image_ref@),
                q == (|k: Seq<char>| p(m[k])),
                forall|j: int| 0 <= j < i ==> !q(#[trigger] keys[j]),
            decreases n - i,
        {
            let (_, rec) = self.containers.at(i);
            if same_text(rec.config.image_ref.as_str(), image_ref) && rec.state
                != ContainerState::Exited {
                proof {
                    crate::seqs::lemma_filter_first(keys, q, i as int);
                    crate::text_map::lemma_listing(keys, m, p, |r: ContainerRecordView| r);
                }
                return Some(i);
            }
            i = i + 1;
        }
        proof {
            crate::seqs::lemma_filter_none(keys, q);
            crate::text_map::lemma_listing(keys, m, p, |r: ContainerRecordView| r);
        }
        None
    }

    /// Reports the image with the reference, if there is one.
    pub fn image_status(&self, image_ref: &str) -> (r: Result<Option<ImageRecord>, BackendError>)
        ensures
            match self@.image_reported(image_ref@) {
                Some(s) => r matches Ok(Some(rec)) && rec@ == s,
                None => r matches Ok(None),
            },
    {
        match self.find_image(image_ref) {
            Some(i) => {
                let (_, rec) = self.images.at(i);
                Ok(Some(image_rec_to_status(rec)))
            },
            None => Ok(None),
        }
    }

    /// Reports all images, in the order of their names.
    pub fn list_images(&self) -> (r: Result<Vec<ImageRecord>, BackendError>)
        ensures
            r matches Ok(v) && v.deep_view() == self@.listed_images(),
    {
        let ghost m = self.images@;
        let ghost keys = self.images.keys();
        let ghost g = |k: Seq<char>| crate::fake::record::image_status_of(m[k]);
        let n = self.images.len();
        let mut out: Vec<ImageRecord> = Vec::new();
        let mut i: usize = 0;
        assert(out.deep_view() =~= keys.take(0).map_values(g));
        while i < n
            invariant
                i <= n,
                n == keys.len(),
                keys == self.images.keys(),
                m == self.images@,
                g == (|k: Seq<char>| crate::fake::record::image_status_of(m[k])),
                out.deep_view() == keys.take(i as int).map_values(g),
            decreases n - i,
        {
            let (_, rec) = self.images.at(i);
            let ghost before = out.deep_view();
            out.push(image_rec_to_status(rec));
            assert(out.deep_view() =~= before.push(g(keys[i as int])));
            assert(out.deep_view() =~= keys.take(i + 1).map_values(g));
            i = i + 1;
        }
        proof {
            assert(keys.take(n as int) =~= keys);
            self.images.lemma_keys_sorted();
        }
        Ok(out)
    }

    /// Removes the image with the reference, unless a container keeps it in use. Its name comes
    /// back where there was one, and then its file is to be deleted.
    pub fn remove_image(&mut self, image_ref: &str) -> (r: Result<Option<String>, BackendError>)
        requires
            old(self)@.wf(),
        ensures
            final(self)@.wf(),
            final(self)@ == old(self)@.image_removed(image_ref@).0,
            match old(self)@.image_removed(image_ref@).1 {
                Ok(None) => r matches Ok(None),
                Ok(Some(id)) => r matches Ok(Some(name)) && name@ == id,
                Err(e) => r matches Err(x) && x@ == e,
            },
    {
        let id = match self.find_image(image_ref) {
            None => {
                return Ok(None);
            },
            Some(i) => {
                let (k, _) = self.images.at(i);
                k.clone()
            },
        };
        if let Some(i) = self.find_user(image_ref) {
            let (_, c) = self.containers.at(i);
            let mut m = join3("image ", image_ref, " referenced by container ");
            m.append(c.id.0.as_str());
            return Err(BackendError::InUse(m));
        }
        self.images.remove(id.as_str());
        assert(self@ =~= old(self)@.drop_image(id@));
        Ok(Some(id))
    }
}

/// The sizes of the images with these names, together.
pub open spec fn sizes(keys: Seq<Seq<char>>, images: Map<Seq<char>, ImageDiskRecordView>) -> nat
    decreases keys.len(),
{
    if keys.len() == 0 {
        0
    } else {
        sizes(keys.drop_last(), images) + images[keys.last()].size as nat
    }
}

proof fn lemma_sizes_grow(
    keys: Seq<Seq<char>>,
    images: Map<Seq<char>, ImageDiskRecordView>,
    i: int,
)
    requires
        0 <= i < keys.len(),
    ensures
        sizes(keys.take(i + 1), images) == sizes(keys.take(i), images) + images[keys[i]].size,
        sizes(keys.take(i + 1), images) <= sizes(keys, images),
    decreases keys.len(),
{
    assert(keys.take(i + 1).drop_last() =~= keys.take(i));
    if i + 1 == keys.len() {
        assert(keys.take(i + 1) =~= keys);
    } else {
        let front = keys.drop_last();
        assert(front.take(i + 1) =~= keys.take(i + 1));
        assert(front.take(i) =~= keys.take(i));
        lemma_sizes_grow(front, images, i);
    }
}

impl BackendView {
    /// The sizes of all images, together.
    pub open spec fn used_bytes(self) -> nat {
        sizes(crate::text_map::sorted(self.images.dom()), self.images)
    }

    /// How many images there are.
    pub open spec fn image_count(self) -> nat {
        crate::text_map::sorted(self.images.dom()).len()
    }

    /// What is reported of what the images take up.
    pub open spec fn use_told(self, now_nanos: i64) -> FsInfoView {
        FsInfoView {
            timestamp_nanos: now_nanos,
            mountpoint: self.state_root,
            used_bytes: self.used_bytes() as u64,
            inodes_used: self.image_count() as u64,
        }
    }
}

impl FakeBackend {
    /// The sizes of all images together, if a `u64` can hold them.
    pub fn used_bytes(&self) -> (r: Option<u64>)
        ensures
            match r {
                Some(n) => n == self@.used_bytes(),
                None => self@.used_bytes() > u64::MAX,
            },
    {
        let ghost m = self.images@;
        let ghost keys = self.images.keys();
        let n = self.images.len();
        proof {
            self.images.lemma_keys_sorted();
        }
        let mut sum: u64 = 0;
        let mut i: usize = 0;
        while i < n
            invariant
                i <= n,
                n == keys.len(),
                keys == self.images.keys(),
                keys == crate::text_map::sorted(m.dom()),
                m == self.images@,
                sum == sizes(keys.take(i as int), m),
            decreases n - i,
        {
            let (_, rec) = self.images.at(i);
            proof {
                lemma_sizes_grow(keys, m, i as int);
            }
            match sum.checked_add(rec.size) {
                Some(s) => {
                    sum = s;
                },
                None => {
                    return None;
                },
            }
            i = i + 1;
        }
        assert(keys.take(n as int) =~= keys);
        Some(sum)
    }

    /// Reports what the images take up.
    pub fn image_fs_info(&self, now_nanos: i64) -> (r: Result<FsInfo, BackendError>)
        requires
            self@.used_bytes() <= u64::MAX,
        ensures
            r matches Ok(info) && info@ == self@.use_told(now_nanos),
    {
        let used_bytes = match self.used_bytes() {
            Some(n) => n,
            None => 0,
        };
        let n = self.images.len();
        proof {
            self.images.lemma_keys_sorted();
        }
        Ok(
            FsInfo {
                timestamp_nanos: now_nanos,
                mountpoint: self.state_root.clone(),
                used_bytes,
                inodes_used: n as u64,
            },
        )
    }
}

/// Every image stands under the name that its reference gives it.
pub open spec fn images_named_by_ref(b: BackendView) -> bool {
    forall|k: Seq<char>| #[trigger]
        b.images.dom().contains(k) ==> k == image_id(
            blake3_digest(vstd::utf8::encode_utf8(b.images[k].ref_name)),
        )
}

/// An image that was pulled is found under its reference, with the name that the reference's digest
/// gives it. It is listed once, and to pull it again changes nothing.
pub proof fn law_pulled_is_found(b: BackendView, image_ref: Seq<char>)
    requires
        b.wf(),
        images_named_by_ref(b),
    ensures
        ({
            let digest = blake3_digest(vstd::utf8::encode_utf8(image_ref));
            let rec = pulled_record(image_ref, digest);
            let after = b.put_image(rec);
            let status = crate::fake::record::image_status_of(rec);
            &&& images_named_by_ref(after)
            &&& after.find_image(image_ref) == Some(rec.id)
            &&& after.images[rec.id] == rec
            &&& status == (ImageRecordView {
                id: image_id(digest),
                ref_name: image_ref,
                size: vstd::utf8::encode_utf8(image_ref).len() as u64,
            })
            &&& after.listed_images().filter(|r: ImageRecordView| r.ref_name == image_ref) == seq![
                status,
            ]
            &&& after.put_image(rec) == after
        }),
{
    let rec = pulled_record(image_ref, blake3_digest(vstd::utf8::encode_utf8(image_ref)));
    let after = b.put_image(rec);
    assert(images_named_by_ref(after)) by {
        assert forall|k: Seq<char>| #[trigger] after.images.dom().contains(k) implies k == image_id(
            blake3_digest(vstd::utf8::encode_utf8(after.images[k].ref_name)),
        ) by {
            if k != rec.id {
                assert(b.images.dom().contains(k));
            }
        }
    }
    let found = crate::text_map::picked(after.images, has_ref(image_ref));
    assert(found.contains(rec.id));
    assert(found =~= set![rec.id]);
    lemma_only(rec.id);
    assert(after.put_image(rec) =~= after);
    let f = |r: ImageDiskRecordView| crate::fake::record::image_status_of(r);
    let ps = |r: ImageRecordView| r.ref_name == image_ref;
    crate::text_map::lemma_listing_filters(
        after.images,
        has_ref(image_ref),
        f,
        |r: ImageDiskRecordView| true,
        ps,
    );
    assert(after.listed_images() =~= crate::text_map::sorted(after.images.dom()).map_values(
        |k: Seq<char>| f(after.images[k]),
    ));
    assert(crate::text_map::listing(after.images, has_ref(image_ref), f) =~= seq![
        crate::fake::record::image_status_of(rec),
    ]);
}

proof fn lemma_only(id: Seq<char>)
    ensures
        crate::text_map::sorted(set![id]) == seq![id],
{
    let one = seq![id];
    assert(one.to_set() =~= set![id]) by {
        assert(one[0] == id);
    }
    crate::text_map::lemma_sorted(one);
}

/// An image that was removed is no longer found, and to remove it again does nothing.
pub proof fn law_removed_is_gone(b: BackendView, image_ref: Seq<char>)
    requires
        b.wf(),
        images_named_by_ref(b),
        b.find_image(image_ref) is Some,
    ensures
        ({
            let after = b.drop_image(b.find_image(image_ref)->0);
            &&& images_named_by_ref(after)
            &&& after.find_image(image_ref) is None
        }),
{
    let id = b.find_image(image_ref)->0;
    let after = b.drop_image(id);
    let found = crate::text_map::picked(b.images, has_ref(image_ref));
    crate::text_map::lemma_sorted_set(found);
    let keys = crate::text_map::sorted(found);
    assert(keys.to_set().contains(keys[0]));
    assert(b.images.dom().contains(id) && b.images[id].ref_name == image_ref);
    assert forall|k: Seq<char>| #[trigger] after.images.dom().contains(k) implies k == image_id(
        blake3_digest(vstd::utf8::encode_utf8(after.images[k].ref_name)),
    ) && after.images[k].ref_name != image_ref by {
        assert(b.images.dom().contains(k));
    }
    let left = crate::text_map::picked(after.images, has_ref(image_ref));
    assert(left =~= Set::empty());
    assert(Seq::<Seq<char>>::empty().to_set() =~= left);
    crate::text_map::lemma_sorted(Seq::<Seq<char>>::empty());
}

/// An image is found by its reference if there is one with that reference, and then it is such a one.
pub proof fn law_image_is_found_by_its_reference(b: BackendView, image_ref: Seq<char>)
    requires
        b.wf(),
    ensures
        match b.find_image(image_ref) {
            Some(k) => b.images.dom().contains(k) && b.images[k].ref_name == image_ref,
            None => forall|k: Seq<char>| #[trigger]
                b.images.dom().contains(k) ==> b.images[k].ref_name != image_ref,
        },
{
    lemma_first_picked(b.images, has_ref(image_ref));
    let set = crate::text_map::picked(b.images, has_ref(image_ref));
    if b.find_image(image_ref) is None {
        assert forall|k: Seq<char>| #[trigger] b.images.dom().contains(k) implies b.images[k].ref_name
            != image_ref by {
            assert(!set.contains(k));
        }
    }
}

/// An image is in use if a container was made from it that has not exited, and only then.
pub proof fn law_image_is_used_by_what_has_not_exited(b: BackendView, image_ref: Seq<char>)
    requires
        b.wf(),
    ensures
        match b.find_user(image_ref) {
            Some(k) => b.containers.dom().contains(k) && b.containers[k].config.image_ref
                == image_ref && b.containers[k].state != ContainerState::Exited,
            None => forall|k: Seq<char>| #[trigger]
                b.containers.dom().contains(k) && b.containers[k].config.image_ref == image_ref
                    ==> b.containers[k].state == ContainerState::Exited,
        },
{
    lemma_first_picked(b.containers, uses_ref(image_ref));
    let set = crate::text_map::picked(b.containers, uses_ref(image_ref));
    if b.find_user(image_ref) is None {
        assert forall|k: Seq<char>| #[trigger]
            b.containers.dom().contains(k) && b.containers[k].config.image_ref
                == image_ref implies b.containers[k].state == ContainerState::Exited by {
            assert(!set.contains(k));
        }
    }
}

proof fn lemma_first_picked<R>(m: Map<Seq<char>, R>, p: spec_fn(R) -> bool)
    requires
        m.dom().finite(),
    ensures
        match crate::text_map::first_picked(m, p) {
            Some(k) => m.dom().contains(k) && p(m[k]),
            None => forall|k: Seq<char>| !(#[trigger] crate::text_map::picked(m, p).contains(k)),
        },
{
    let set = crate::text_map::picked(m, p);
    vstd::set_lib::lemma_len_subset(set, m.dom());
    crate::text_map::lemma_sorted_set(set);
    let keys = crate::text_map::sorted(set);
    if keys.len() > 0 {
        assert(keys.to_set().contains(keys[0]));
    } else {
        assert forall|k: Seq<char>| !(#[trigger] set.contains(k)) by {
            assert(keys.to_set().contains(k) <==> keys.contains(k));
        }
    }
}

/// A reference is taken if it is neither empty nor holds white space.
pub proof fn law_references_have_no_space(image_ref: Seq<char>)
    ensures
        !is_image_ref(Seq::empty()),
        image_ref.len() > 0 && !image_ref.contains(' ') && !image_ref.contains('\t')
            && !image_ref.contains('\n') && !image_ref.contains('\r') && !image_ref.contains('\x0C')
            <==> is_image_ref(image_ref),
{
    if is_image_ref(image_ref) {
        assert forall|x: char| is_ascii_space(x) implies !(#[trigger] image_ref.contains(x)) by {
            if image_ref.contains(x) {
                let i = image_ref.index_of(x);
                assert(!is_ascii_space(image_ref[i]));
            }
        }
        assert(is_ascii_space(' ') && is_ascii_space('\t') && is_ascii_space('\n')
            && is_ascii_space('\r') && is_ascii_space('\x0C'));
    } else if image_ref.len() > 0 {
        let i = choose|i: int| 0 <= i < image_ref.len() && is_ascii_space(#[trigger] image_ref[i]);
        assert(image_ref.contains(image_ref[i]));
    }
}

/// What is pulled is recorded and reported under the reference that was asked for, with its length
/// for a size; its name is the beginning of the digest that is reported in full.
pub proof fn law_pull_reports_what_it_records(image_ref: Seq<char>, digest: Seq<u8>)
    requires
        digest.len() == 32,
    ensures
        ({
            let rec = pulled_record(image_ref, digest);
            let report = pulled(image_ref, digest);
            &&& rec.ref_name == image_ref && report.ref_name == image_ref
            &&& rec.size == report.total_size
            &&& vstd::utf8::encode_utf8(image_ref).len() <= u64::MAX ==> rec.size
                == vstd::utf8::encode_utf8(image_ref).len()
            &&& report.root_hex.len() == 64
            &&& rec.id.len() == 20
            &&& rec.id == "sha-"@ + report.root_hex.take(16)
        }),
{
    reveal_strlit("sha-");
}

/// What the images take up together grows by the size of an image that comes, and shrinks by that of
/// one that goes; there are as many as there are names.
pub proof fn law_images_add_up(b: BackendView, rec: ImageDiskRecordView)
    requires
        b.wf(),
        !b.images.dom().contains(rec.id),
    ensures
        b.put_image(rec).used_bytes() == b.used_bytes() + rec.size,
        b.put_image(rec).image_count() == b.image_count() + 1,
        b.put_image(rec).drop_image(rec.id).used_bytes() == b.used_bytes(),
        b.image_count() == b.images.dom().len(),
        b.images.dom().len() == 0 ==> b.used_bytes() == 0,
{
    let after = b.put_image(rec);
    let keys = crate::text_map::sorted(after.images.dom());
    crate::text_map::lemma_sorted_set(after.images.dom());
    crate::text_map::lemma_ascending_distinct(keys);
    assert(keys.to_set().contains(rec.id));
    let i = keys.index_of(rec.id);
    let rest = keys.remove(i);
    assert(after.images.dom().remove(rec.id) =~= b.images.dom());
    assert forall|k: Seq<char>| rest.to_set().contains(k) <==> b.images.dom().contains(k) by {
        if rest.contains(k) {
            let j = rest.index_of(k);
            let old_j = if j < i {
                j
            } else {
                j + 1
            };
            assert(keys[old_j] == k);
            assert(keys.to_set().contains(k));
        }
        if b.images.dom().contains(k) {
            assert(keys.to_set().contains(k));
            let j = keys.index_of(k);
            let new_j = if j < i {
                j
            } else {
                j - 1
            };
            assert(rest[new_j] == k);
        }
    }
    assert(rest.to_set() =~= b.images.dom());
    assert(crate::text_map::ascending(rest));
    crate::text_map::lemma_sorted(rest);
    lemma_sizes_without(keys, after.images, i);
    lemma_same_sizes(rest, after.images, b.images);
    assert(after.drop_image(rec.id).images =~= b.images);
    rest.unique_seq_to_set();
    if b.images.dom().len() == 0 {
        assert(rest =~= Seq::empty());
    }
}

proof fn lemma_sizes_without(
    keys: Seq<Seq<char>>,
    images: Map<Seq<char>, ImageDiskRecordView>,
    i: int,
)
    requires
        0 <= i < keys.len(),
    ensures
        sizes(keys, images) == sizes(keys.remove(i), images) + images[keys[i]].size,
    decreases keys.len(),
{
    let rest = keys.remove(i);
    if i == keys.len() - 1 {
        assert(rest =~= keys.drop_last());
    } else {
        lemma_sizes_without(keys.drop_last(), images, i);
        assert(rest.drop_last() =~= keys.drop_last().remove(i));
        assert(rest.last() == keys.last());
    }
}

proof fn lemma_same_sizes(
    keys: Seq<Seq<char>>,
    a: Map<Seq<char>, ImageDiskRecordView>,
    b: Map<Seq<char>, ImageDiskRecordView>,
)
    requires
        forall|i: int| 0 <= i < keys.len() ==> a[#[trigger] keys[i]] == b[keys[i]],
    ensures
        sizes(keys, a) == sizes(keys, b),
    decreases keys.len(),
{
    if keys.len() > 0 {
        assert(keys.last() == keys[keys.len() - 1]);
        let rest = keys.drop_last();
        assert forall|i: int| 0 <= i < rest.len() implies a[#[trigger] rest[i]] == b[rest[i]] by {
            assert(rest[i] == keys[i]);
        }
        lemma_same_sizes(rest, a, b);
    }
}

/// An image that a container uses which has not exited is not removed, and nothing changes. Any other
/// is gone afterwards, and only that image is; where there is none, there is nothing to do.
pub proof fn law_image_in_use_is_not_removed(b: BackendView, image_ref: Seq<char>, k: Seq<char>)
    requires
        b.wf(),
    ensures
        ({
            let (after, r) = b.image_removed(image_ref);
            &&& r matches Err(e) ==> e is InUse && after == b && exists|c: Seq<char>| #[trigger]
                b.containers.dom().contains(c) && b.containers[c].config.image_ref == image_ref
                    && b.containers[c].state != ContainerState::Exited
            &&& r is Ok && b.image_reported(image_ref) is Some && b.containers.dom().contains(k)
                && b.containers[k].config.image_ref == image_ref ==> b.containers[k].state
                == ContainerState::Exited
            &&& r matches Ok(None) ==> after == b && (b.images.dom().contains(k)
                ==> b.images[k].ref_name != image_ref)
            &&& r matches Ok(Some(id)) ==> {
                &&& b.images.dom().contains(id) && b.images[id].ref_name == image_ref
                &&& !after.images.dom().contains(id)
                &&& k != id && b.images.dom().contains(k) ==> after.images.dom().contains(k)
                    && after.images[k] == b.images[k]
                &&& after.containers == b.containers && after.sandboxes == b.sandboxes && after.io
                    == b.io
            }
        }),
{
    law_image_is_found_by_its_reference(b, image_ref);
    law_image_is_used_by_what_has_not_exited(b, image_ref);
}

/// What is reported of an image is an image with the reference that was asked for, as it is recorded.
pub proof fn law_image_is_reported_by_its_reference(b: BackendView, image_ref: Seq<char>)
    requires
        b.wf(),
    ensures
        match b.image_reported(image_ref) {
            Some(s) => s.ref_name == image_ref && b.images.dom().contains(s.id) && s.size
                == b.images[s.id].size,
            None => forall|k: Seq<char>| #[trigger]
                b.images.dom().contains(k) ==> b.images[k].ref_name != image_ref,
        },
{
    law_image_is_found_by_its_reference(b, image_ref);
}

/// All images are listed, each once and in the order of their names, as they are recorded.
pub proof fn law_all_images_are_listed(b: BackendView, k: Seq<char>)
    requires
        b.wf(),
    ensures
        ({
            let all = b.listed_images();
            let names = all.map_values(|r: ImageRecordView| r.id);
            &&& names.contains(k) <==> b.images.dom().contains(k)
            &&& names.no_duplicates()
            &&& crate::text_map::ascending(names)
            &&& forall|i: int|
                0 <= i < all.len() ==> (#[trigger] all[i]).ref_name == b.images[all[i].id].ref_name
                    && all[i].size == b.images[all[i].id].size
        }),
{
    let keys = crate::text_map::sorted(b.images.dom());
    crate::text_map::lemma_sorted_set(b.images.dom());
    crate::text_map::lemma_ascending_distinct(keys);
    let all = b.listed_images();
    let names = all.map_values(|r: ImageRecordView| r.id);
    assert forall|i: int| 0 <= i < keys.len() implies (#[trigger] names[i]) == keys[i] && all[i].id
        == keys[i] by {
        assert(keys.to_set().contains(keys[i]));
    }
    assert(names =~= keys);
    assert(keys.to_set().contains(k) <==> keys.contains(k));
}

/// What the images take up is told of the place where the state is kept, at the time of the report; an
/// image that is pulled adds its size and itself.
pub proof fn law_use_is_told_of_the_state(
    b: BackendView,
    rec: ImageDiskRecordView,
    now_nanos: i64,
    later_nanos: i64,
)
    requires
        b.wf(),
        !b.images.dom().contains(rec.id),
        b.used_bytes() + rec.size <= u64::MAX,
        b.image_count() < u64::MAX,
    ensures
        b.use_told(now_nanos).timestamp_nanos == now_nanos,
        b.use_told(now_nanos).mountpoint == b.state_root,
        b.put_image(rec).use_told(later_nanos).used_bytes == b.use_told(now_nanos).used_bytes
            + rec.size,
        b.put_image(rec).use_told(later_nanos).inodes_used == b.use_told(now_nanos).inodes_used + 1,
{
    law_images_add_up(b, rec);
}

/// What is no reference is refused as such, and the error quotes it.
pub proof fn law_bad_reference_is_quoted(quoted_ref: Seq<char>)
    ensures
        bad_ref(quoted_ref) matches BackendErrorView::InvalidArgument(m) && ("image_ref "@
            + quoted_ref).is_prefix_of(m),
{
    let head = "image_ref "@ + quoted_ref;
    let m = "image_ref "@ + quoted_ref + " is empty or contains whitespace"@;
    assert(m.subrange(0, head.len() as int) =~= head);
}

/// An image that could be written is there from then on; one that could not be written is not, and
/// nothing changes.
pub proof fn law_what_is_written_is_there(
    b: BackendView,
    rec: ImageDiskRecordView,
    fault: WriteFault,
)
    ensures
        ({
            let (after, refused) = b.image_taken_in(rec, Ok(()));
            &&& refused is None
            &&& after.images.dom().contains(rec.id) && after.images[rec.id] == rec
            &&& after.images.remove(rec.id) == b.images.remove(rec.id)
            &&& after.containers == b.containers && after.sandboxes == b.sandboxes && after.io
                == b.io
        }),
        b.image_taken_in(rec, Err(fault)).0 == b,
        b.image_taken_in(rec, Err(fault)).1 is Some,
{
    assert(b.put_image(rec).images.remove(rec.id) =~= b.images.remove(rec.id));
}

} // verus!
