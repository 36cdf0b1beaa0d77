//! The records that the backend keeps, one file for each.

use crate::text::{has_suffix, push_decimal, push_decimal_signed};
use crate::types::{
    ContainerConfig, ContainerConfigView, ContainerId, ContainerState, ContainerStatus,
    ContainerStatusView, ImageRecord, ImageRecordView, SandboxConfig, SandboxConfigView, SandboxId,
    SandboxState, SandboxStatus, SandboxStatusView,
};
use vstd::prelude::*;
use vstd::string::*;

verus! {

/// What is kept of a sandbox.
#[derive(Debug, PartialEq, Eq)]
pub struct SandboxRecord {
    pub id: SandboxId,
    pub config: SandboxConfig,
    pub state: SandboxState,
    pub created_at_nanos: i64,
}

/// What a [`SandboxRecord`] says.
#[verifier::ext_equal]
pub struct SandboxRecordView {
    pub id: Seq<char>,
    pub config: SandboxConfigView,
    pub state: SandboxState,
    pub created_at_nanos: i64,
}

impl View for SandboxRecord {
    type V = SandboxRecordView;

    open spec fn view(&self) -> SandboxRecordView {
        SandboxRecordView {
            id: self.id@,
            config: self.config@,
            state: self.state,
            created_at_nanos: self.created_at_nanos,
        }
    }
}

impl DeepView for SandboxRecord {
    type V = SandboxRecordView;

    open spec fn deep_view(&self) -> SandboxRecordView {
        self@
    }
}

impl Clone for SandboxRecord {
    fn clone(&self) -> (r: Self)
        ensures
            r@ == self@,
    {
        SandboxRecord {
            id: self.id.clone(),
            config: self.config.clone(),
            state: self.state,
            created_at_nanos: self.created_at_nanos,
        }
    }
}

/// What is kept of a container.
#[derive(Debug, PartialEq, Eq)]
pub struct ContainerRecord {
    pub id: ContainerId,
    pub sandbox: SandboxId,
    pub config: ContainerConfig,
    pub state: ContainerState,
    pub created_at_nanos: i64,
    pub started_at_nanos: i64,
    pub finished_at_nanos: i64,
    pub exit_code: i32,
    pub reason: String,
    pub message: String,
    /// The process of the container; 0 where none was started.
    pub pid: u32,
}

/// What a [`ContainerRecord`] says.
#[verifier::ext_equal]
pub struct ContainerRecordView {
    pub id: Seq<char>,
    pub sandbox: Seq<char>,
    pub config: ContainerConfigView,
    pub state: ContainerState,
    pub created_at_nanos: i64,
    pub started_at_nanos: i64,
    pub finished_at_nanos: i64,
    pub exit_code: i32,
    pub reason: Seq<char>,
    pub message: Seq<char>,
    pub pid: u32,
}

impl View for ContainerRecord {
    type V = ContainerRecordView;

    open spec fn view(&self) -> ContainerRecordView {
        ContainerRecordView {
            id: self.id@,
            sandbox: self.sandbox@,
            config: self.config@,
            state: self.state,
            created_at_nanos: self.created_at_nanos,
            started_at_nanos: self.started_at_nanos,
            finished_at_nanos: self.finished_at_nanos,
            exit_code: self.exit_code,
            reason: self.reason@,
            message: self.message@,
            pid: self.pid,
        }
    }
}

impl DeepView for ContainerRecord {
    type V = ContainerRecordView;

    open spec fn deep_view(&self) -> ContainerRecordView {
        self@
    }
}

impl Clone for ContainerRecord {
    fn clone(&self) -> (r: Self)
        ensures
            r@ == self@,
    {
        ContainerRecord {
            id: self.id.clone(),
            sandbox: self.sandbox.clone(),
            config: self.config.clone(),
            state: self.state,
            created_at_nanos: self.created_at_nanos,
            started_at_nanos: self.started_at_nanos,
            finished_at_nanos: self.finished_at_nanos,
            exit_code: self.exit_code,
            reason: self.reason.clone(),
            message: self.message.clone(),
            pid: self.pid,
        }
    }
}

/// What is kept of an image.
#[derive(Debug, PartialEq, Eq)]
pub struct ImageDiskRecord {
    pub id: String,
    pub ref_name: String,
    pub size: u64,
}

/// What a [`ImageDiskRecord`] says.
#[verifier::ext_equal]
pub struct ImageDiskRecordView {
    pub id: Seq<char>,
    pub ref_name: Seq<char>,
    pub size: u64,
}

impl View for ImageDiskRecord {
    type V = ImageDiskRecordView;

    open spec fn view(&self) -> ImageDiskRecordView {
        ImageDiskRecordView {
            id: self.id@,
            ref_name: self.ref_name@,
            size: self.size,
        }
    }
}

impl DeepView for ImageDiskRecord {
    type V = ImageDiskRecordView;

    open spec fn deep_view(&self) -> ImageDiskRecordView {
        self@
    }
}

impl Clone for ImageDiskRecord {
    fn clone(&self) -> (r: Self)
        ensures
            r@ == self@,
    {
        ImageDiskRecord {
            id: self.id.clone(),
            ref_name: self.ref_name.clone(),
            size: self.size,
        }
    }
}

/// A name that is used once: a prefix, a moment and a count.
pub open spec fn id_text(prefix: Seq<char>, nanos: int, count: nat) -> Seq<char> {
    prefix + crate::text::dec_signed(nanos) + seq!['-'] + crate::text::dec(count)
}

/// Makes a name out of the moment `nanos` and a count that never repeats.
pub fn new_id(prefix: &str, nanos: i64, count: u64) -> (r: String)
    ensures
        r@ == id_text(prefix@, nanos as int, count as nat),
{
    let mut r = prefix.to_owned();
    push_decimal_signed(&mut r, nanos);
    r.push('-');
    push_decimal(&mut r, count as u128);
    assert(r@ =~= id_text(prefix@, nanos as int, count as nat));
    r
}

/// Names made with different counts differ, and so do names made at different moments.
pub proof fn law_ids_are_distinct(
    prefix: Seq<char>,
    nanos1: int,
    count1: nat,
    nanos2: int,
    count2: nat,
)
    requires
        id_text(prefix, nanos1, count1) == id_text(prefix, nanos2, count2),
    ensures
        nanos1 == nanos2,
        count1 == count2,
{
    let a = id_text(prefix, nanos1, count1);
    let c1 = crate::text::dec(count1);
    let c2 = crate::text::dec(count2);
    crate::text::lemma_dec_value(count1);
    crate::text::lemma_dec_value(count2);
    let m1 = a.len() - c1.len();
    let m2 = a.len() - c2.len();
    assert(a[m1 - 1] == '-');
    assert(a[m2 - 1] == '-');
    if c1.len() < c2.len() {
        assert(a[m1 - 1] == c2[m1 - 1 - m2]);
    } else if c2.len() < c1.len() {
        assert(a[m2 - 1] == c1[m2 - 1 - m1]);
    }
    assert(c1 =~= a.skip(m1));
    assert(c2 =~= a.skip(m2));
    let d1 = crate::text::dec_signed(nanos1);
    let d2 = crate::text::dec_signed(nanos2);
    assert(d1 =~= a.subrange(prefix.len() as int, m1 - 1));
    assert(d2 =~= a.subrange(prefix.len() as int, m2 - 1));
    lemma_dec_signed_distinct(nanos1, nanos2);
}

/// Different numbers are written differently.
proof fn lemma_dec_signed_distinct(m: int, n: int)
    requires
        crate::text::dec_signed(m) == crate::text::dec_signed(n),
    ensures
        m == n,
{
    let x = crate::text::dec_signed(m);
    let am = (if m < 0 {
        -m
    } else {
        m
    }) as nat;
    let an = (if n < 0 {
        -n
    } else {
        n
    }) as nat;
    crate::text::lemma_dec_value(am);
    crate::text::lemma_dec_value(an);
    if m >= 0 {
        assert(crate::text::is_digit(crate::text::dec(am)[0]));
        assert(x[0] != '-');
    } else {
        assert(x[0] == '-');
        assert(crate::text::dec(am) =~= x.skip(1));
    }
    if n >= 0 {
        assert(crate::text::is_digit(crate::text::dec(an)[0]));
    } else {
        assert(crate::text::dec(an) =~= x.skip(1));
    }
}

/// The file of the record named `id`.
pub open spec fn record_file_text(id: Seq<char>) -> Seq<char> {
    id + ".json"@
}

/// The file of the record named `id`.
pub fn record_file(id: &str) -> (r: String)
    ensures
        r@ == record_file_text(id@),
{
    let mut r = id.to_owned();
    r.append(".json");
    r
}

/// The file that is written first and then takes the place of a record.
pub open spec fn temp_file_text(pid: nat, nanos: nat) -> Seq<char> {
    ".tmp-"@ + crate::text::dec(pid) + seq!['-'] + crate::text::dec(nanos)
}

/// The file that is written first and then takes the place of a record.
pub fn temp_file(pid: u32, nanos: u128) -> (r: String)
    ensures
        r@ == temp_file_text(pid as nat, nanos as nat),
{
    let mut r = ".tmp-".to_owned();
    push_decimal(&mut r, pid as u128);
    r.push('-');
    push_decimal(&mut r, nanos);
    assert(r@ =~= temp_file_text(pid as nat, nanos as nat));
    r
}

/// Whether a file holds a record: its extension is `json`. A name that only consists of a leading
/// dot and what follows it has no extension.
pub open spec fn is_record_name(name: Seq<char>) -> bool {
    name.len() > 5 && ".json"@.is_suffix_of(name)
}

/// Whether a file of this name holds a record.
pub fn is_record_file(name: &str) -> (r: bool)
    ensures
        r == is_record_name(name@),
{
    name.unicode_len() > 5 && has_suffix(name, ".json")
}

/// A record is found again under the name of its file, and a file that a crash left half written
/// is not taken for a record.
pub proof fn law_only_records_are_read(id: Seq<char>, pid: nat, nanos: nat)
    requires
        id.len() > 0,
    ensures
        is_record_name(record_file_text(id)),
        !is_record_name(temp_file_text(pid, nanos)),
{
    reveal_strlit(".json");
    reveal_strlit(".tmp-");
    let r = record_file_text(id);
    assert(r.skip(r.len() - 5) =~= ".json"@);
    let t = temp_file_text(pid, nanos);
    let d = crate::text::dec(nanos);
    crate::text::lemma_dec_value(nanos);
    assert(t[t.len() - 1] == d[d.len() - 1]);
    assert(crate::text::is_digit(d[d.len() - 1]));
    if is_record_name(t) {
        assert(t[t.len() - 1] == ".json"@[4]);
    }
}

/// How a container's state is called.
pub open spec fn state_text(s: ContainerState) -> Seq<char> {
    match s {
        ContainerState::Created => "Created"@,
        ContainerState::Running => "Running"@,
        ContainerState::Exited => "Exited"@,
        ContainerState::Unknown => "Unknown"@,
    }
}

/// How a container's state is called.
pub fn state_name(s: ContainerState) -> (r: &'static str)
    ensures
        r@ == state_text(s),
{
    match s {
        ContainerState::Created => "Created",
        ContainerState::Running => "Running",
        ContainerState::Exited => "Exited",
        ContainerState::Unknown => "Unknown",
    }
}

/// What is reported of a sandbox with this record.
pub open spec fn sandbox_status_of(rec: SandboxRecordView) -> SandboxStatusView {
    SandboxStatusView {
        id: rec.id,
        config: rec.config,
        state: rec.state,
        created_at_nanos: rec.created_at_nanos,
        ip: None,
        netns_path: None,
    }
}

/// What is reported of a sandbox with this record.
pub fn sandbox_rec_to_status(rec: &SandboxRecord) -> (r: SandboxStatus)
    ensures
        r@ == sandbox_status_of(rec@),
{
    SandboxStatus {
        id: rec.id.clone(),
        config: rec.config.clone(),
        state: rec.state,
        created_at_nanos: rec.created_at_nanos,
        ip: None,
        netns_path: None,
    }
}

/// What is reported of a container with this record.
pub open spec fn container_status_of(rec: ContainerRecordView) -> ContainerStatusView {
    ContainerStatusView {
        id: rec.id,
        sandbox: rec.sandbox,
        config: rec.config,
        state: rec.state,
        created_at_nanos: rec.created_at_nanos,
        started_at_nanos: rec.started_at_nanos,
        finished_at_nanos: rec.finished_at_nanos,
        exit_code: rec.exit_code,
        reason: rec.reason,
        message: rec.message,
    }
}

/// What is reported of a container with this record.
pub fn rec_to_status(rec: &ContainerRecord) -> (r: ContainerStatus)
    ensures
        r@ == container_status_of(rec@),
{
    ContainerStatus {
        id: rec.id.clone(),
        sandbox: rec.sandbox.clone(),
        config: rec.config.clone(),
        state: rec.state,
        created_at_nanos: rec.created_at_nanos,
        started_at_nanos: rec.started_at_nanos,
        finished_at_nanos: rec.finished_at_nanos,
        exit_code: rec.exit_code,
        reason: rec.reason.clone(),
        message: rec.message.clone(),
    }
}

/// What is reported of an image with this record.
pub open spec fn image_status_of(rec: ImageDiskRecordView) -> ImageRecordView {
    ImageRecordView { id: rec.id, ref_name: rec.ref_name, size: rec.size }
}

/// What is reported of an image with this record.
pub fn image_rec_to_status(rec: &ImageDiskRecord) -> (r: ImageRecord)
    ensures
        r@ == image_status_of(rec@),
{
    ImageRecord { id: rec.id.clone(), ref_name: rec.ref_name.clone(), size: rec.size }
}

/// The record of a container whose process ended while nobody watched.
pub open spec fn lost(rec: ContainerRecordView, reason: Seq<char>, now_nanos: i64) -> ContainerRecordView {
    ContainerRecordView {
        state: ContainerState::Exited,
        exit_code: -1i32,
        reason,
        finished_at_nanos: now_nanos,
        ..rec
    }
}

/// What becomes of a container's record when it is read back. One that was running goes on, where
/// its process is alive; where it is not, or was never noted, the container has exited, and nobody
/// knows how.
pub open spec fn recovered(rec: ContainerRecordView, alive: bool, now_nanos: i64) -> ContainerRecordView {
    if rec.state != ContainerState::Running {
        rec
    } else if rec.pid == 0 {
        lost(rec, "lost-start-window"@, now_nanos)
    } else if !alive {
        lost(rec, "lost-exit-reaped-elsewhere"@, now_nanos)
    } else {
        rec
    }
}

/// Whether reading the record back changes it.
pub open spec fn is_lost(rec: ContainerRecordView, alive: bool) -> bool {
    rec.state == ContainerState::Running && (rec.pid == 0 || !alive)
}

/// The process to look for when the record is read back, if any.
pub open spec fn process_to_look_for(rec: ContainerRecordView) -> Option<u32> {
    if rec.state == ContainerState::Running && rec.pid > 0 {
        Some(rec.pid)
    } else {
        None
    }
}

/// The process to look for when the record is read back, if any.
pub fn recovery_pid(rec: &ContainerRecord) -> (r: Option<u32>)
    ensures
        r == process_to_look_for(rec@),
{
    if rec.state == ContainerState::Running && rec.pid > 0 {
        Some(rec.pid)
    } else {
        None
    }
}

/// Brings a record that was read back up to date. `alive` says whether its process is alive.
/// Besides the record, it says whether it changed, and so has to be written again.
pub fn recover_container(rec: ContainerRecord, alive: bool, now_nanos: i64) -> (r: (
    ContainerRecord,
    bool,
))
    ensures
        r.0@ == recovered(rec@, alive, now_nanos),
        r.1 == is_lost(rec@, alive),
{
    let mut rec = rec;
    if rec.state == ContainerState::Running {
        if rec.pid > 0 && !alive {
            rec.state = ContainerState::Exited;
            rec.exit_code = -1;
            rec.reason = "lost-exit-reaped-elsewhere".to_owned();
            rec.finished_at_nanos = now_nanos;
            return (rec, true);
        } else if rec.pid == 0 {
            rec.state = ContainerState::Exited;
            rec.exit_code = -1;
            rec.reason = "lost-start-window".to_owned();
            rec.finished_at_nanos = now_nanos;
            return (rec, true);
        }
    }
    (rec, false)
}

/// A record that is read back is left as it is, unless it tells of a container that runs but has no
/// process: because it was never noted, or because it is gone. That container has exited, at the time
/// of the reading and without a code; the reason says which of the two it was. What the container
/// is, when it was created and when it was started stay as they were.
pub proof fn law_reading_back_finds_the_lost(rec: ContainerRecordView, alive: bool, now_nanos: i64)
    ensures
        ({
            let r = recovered(rec, alive, now_nanos);
            let lost = rec.state == ContainerState::Running && (rec.pid == 0 || !alive);
            &&& !lost ==> r == rec
            &&& lost <==> is_lost(rec, alive)
            &&& lost ==> {
                &&& r.state == ContainerState::Exited
                &&& r.exit_code == -1
                &&& r.finished_at_nanos == now_nanos
                &&& rec.pid == 0 ==> r.reason == "lost-start-window"@
                &&& rec.pid > 0 ==> r.reason == "lost-exit-reaped-elsewhere"@
                &&& r.message == rec.message
            }
            &&& r.id == rec.id
            &&& r.sandbox == rec.sandbox
            &&& r.config == rec.config
            &&& r.created_at_nanos == rec.created_at_nanos
            &&& r.started_at_nanos == rec.started_at_nanos
            &&& r.pid == rec.pid
            &&& recovered(r, alive, now_nanos) == r
        }),
{
}

/// What is reported of a container is what its record says.
pub proof fn law_report_is_the_record(rec: ContainerRecordView)
    ensures
        ({
            let s = container_status_of(rec);
            &&& s.id == rec.id
            &&& s.sandbox == rec.sandbox
            &&& s.config == rec.config
            &&& s.state == rec.state
            &&& s.created_at_nanos == rec.created_at_nanos
            &&& s.started_at_nanos == rec.started_at_nanos
            &&& s.finished_at_nanos == rec.finished_at_nanos
            &&& s.exit_code == rec.exit_code
            &&& s.reason == rec.reason
            &&& s.message == rec.message
        }),
{
}

/// What is reported of a sandbox is what its record says; it has no address and no namespace of its
/// own. What is reported of an image is its record.
pub proof fn law_other_reports_are_the_records(
    sandbox: SandboxRecordView,
    image: ImageDiskRecordView,
)
    ensures
        ({
            let s = sandbox_status_of(sandbox);
            &&& s.id == sandbox.id
            &&& s.config == sandbox.config
            &&& s.state == sandbox.state
            &&& s.created_at_nanos == sandbox.created_at_nanos
            &&& s.ip is None
            &&& s.netns_path is None
        }),
        ({
            let i = image_status_of(image);
            i.id == image.id && i.ref_name == image.ref_name && i.size == image.size
        }),
{
}

/// A name begins with its kind, and so names of different kinds differ.
pub proof fn law_names_tell_their_kind(nanos: int, count: nat, other_nanos: int, other_count: nat)
    ensures
        "sb-"@.is_prefix_of(id_text("sb-"@, nanos, count)),
        "ct-"@.is_prefix_of(id_text("ct-"@, nanos, count)),
        id_text("sb-"@, nanos, count) != id_text("ct-"@, other_nanos, other_count),
{
    reveal_strlit("sb-");
    reveal_strlit("ct-");
    let a = id_text("sb-"@, nanos, count);
    let b = id_text("ct-"@, other_nanos, other_count);
    let c = id_text("ct-"@, nanos, count);
    assert(a.subrange(0, 3) =~= "sb-"@);
    assert(c.subrange(0, 3) =~= "ct-"@);
    assert(a[0] == 's');
    assert(b[0] == 'c');
}

/// The states of containers are told apart by name.
pub proof fn law_states_are_named_apart(a: ContainerState, b: ContainerState)
    ensures
        state_text(a) == state_text(b) <==> a == b,
        state_text(ContainerState::Created) == "Created"@,
        state_text(ContainerState::Running) == "Running"@,
        state_text(ContainerState::Exited) == "Exited"@,
        state_text(ContainerState::Unknown) == "Unknown"@,
{
    reveal_strlit("Created");
    reveal_strlit("Running");
    reveal_strlit("Exited");
    reveal_strlit("Unknown");
    assert("Created"@[0] == 'C' && "Running"@[0] == 'R' && "Exited"@[0] == 'E' && "Unknown"@[0]
        == 'U');
}

/// Each record has a file of its own.
pub proof fn law_files_are_distinct(a: Seq<char>, b: Seq<char>)
    ensures
        record_file_text(a) == record_file_text(b) <==> a == b,
        record_file_text(a).len() == a.len() + 5,
{
    reveal_strlit(".json");
    assert(record_file_text(a).take(record_file_text(a).len() - 5) =~= a);
    assert(record_file_text(b).take(record_file_text(b).len() - 5) =~= b);
}

/// The process of a container is looked for exactly where it matters whether it is alive; it is the
/// one that the record names.
pub proof fn law_process_is_looked_for_where_it_matters(rec: ContainerRecordView, now_nanos: i64)
    ensures
        process_to_look_for(rec) is Some <==> is_lost(rec, true) != is_lost(rec, false),
        process_to_look_for(rec) is None ==> recovered(rec, true, now_nanos) == recovered(
            rec,
            false,
            now_nanos,
        ),
        process_to_look_for(rec) matches Some(pid) ==> pid == rec.pid && pid > 0,
{
}

/// A file is taken for a record if it is a name followed by the ending of records, and only then.
pub proof fn law_records_are_known_by_their_ending(name: Seq<char>)
    ensures
        is_record_name(name) <==> name.len() > 5 && name == record_file_text(name.take(name.len() - 5)),
{
    reveal_strlit(".json");
    if name.len() > 5 {
        let id = name.take(name.len() - 5);
        let ending = name.subrange(name.len() - 5, name.len() as int);
        assert(id + ending =~= name);
        if name == record_file_text(id) {
            assert(ending =~= ".json"@);
        }
    }
}

/// Files that are being written by different processes, or at different moments, do not get in each
/// other's way.
pub proof fn law_temporary_files_are_distinct(pid: nat, nanos: nat, other: nat, other_nanos: nat)
    requires
        temp_file_text(pid, nanos) == temp_file_text(other, other_nanos),
    ensures
        pid == other,
        nanos == other_nanos,
{
    assert(temp_file_text(pid, nanos) == id_text(".tmp-"@, pid as int, nanos));
    assert(temp_file_text(other, other_nanos) == id_text(".tmp-"@, other as int, other_nanos));
    law_ids_are_distinct(".tmp-"@, pid as int, nanos, other as int, other_nanos);
}

} // verus!
