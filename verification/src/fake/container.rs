//! Containers: created, reported, listed, removed, and noted as exited.

use crate::fake::disk::{write_error, WriteFault};
use crate::fake::record::{new_id, rec_to_status, ContainerRecord, ContainerRecordView};
use crate::fake::sandbox::{no_sandbox_error, select_labels};
use crate::fake::{BackendView, FakeBackend};
use crate::text::{join3, push_decimal_signed, same_text};
use crate::types::{
    BackendError, BackendErrorView, ContainerConfig, ContainerConfigView, ContainerFilter,
    ContainerFilterView, ContainerId, ContainerState, ContainerStatus, ContainerStatusView,
    SandboxId, SandboxState,
};
use vstd::prelude::*;
use vstd::string::*;

verus! {

/// Whether the container agrees with every part of the filter.
pub open spec fn container_picked(rec: ContainerRecordView, filter: ContainerFilterView) -> bool {
    &&& filter.id matches Some(id) ==> rec.id == id
    &&& filter.sandbox matches Some(sb) ==> rec.sandbox == sb
    &&& filter.state matches Some(s) ==> rec.state == s
    &&& crate::fake::sandbox::labels_match(rec.config.labels, filter.label_selector)
}

/// Whether the container agrees with every part of the filter.
pub fn container_matches(rec: &ContainerRecord, filter: &ContainerFilter) -> (r: bool)
    ensures
        r == container_picked(rec@, filter@),
{
    if let Some(id) = &filter.id {
        if !same_text(rec.id.0.as_str(), id.0.as_str()) {
            return false;
        }
    }
    if let Some(sb) = &filter.sandbox {
        if !same_text(rec.sandbox.0.as_str(), sb.0.as_str()) {
            return false;
        }
    }
    if let Some(state) = &filter.state {
        if rec.state != *state {
            return false;
        }
    }
    select_labels(&rec.config.labels, &filter.label_selector)
}

/// The names as texts.
pub open spec fn names(ids: Seq<ContainerId>) -> Seq<Seq<char>> {
    ids.map_values(|id: ContainerId| id@)
}

/// There is no such container.
pub open spec fn no_container(id: Seq<char>) -> BackendErrorView {
    BackendErrorView::NotFound("container "@ + id)
}

/// There is no such container.
pub fn no_container_error(id: &ContainerId) -> (r: BackendError)
    ensures
        r@ == no_container(id@),
{
    let mut m = "container ".to_owned();
    m.append(id.0.as_str());
    BackendError::NotFound(m)
}

/// A container that is running cannot be removed.
pub open spec fn still_running(id: Seq<char>) -> BackendErrorView {
    BackendErrorView::FailedPrecondition("container "@ + id + " is Running; stop it first"@)
}

/// Why a container cannot be created in the sandbox, if it cannot.
pub open spec fn create_refusal(b: BackendView, sandbox: Seq<char>) -> Option<BackendErrorView> {
    if !b.sandboxes.dom().contains(sandbox) {
        Some(crate::fake::sandbox::no_sandbox(sandbox))
    } else if b.sandboxes[sandbox].state != SandboxState::Ready {
        Some(BackendErrorView::FailedPrecondition("sandbox "@ + sandbox + " is not Ready"@))
    } else {
        None
    }
}

/// The record of a container that is created.
pub open spec fn fresh_container(
    sandbox: Seq<char>,
    cfg: ContainerConfigView,
    stamp_nanos: i64,
    count: u64,
    now_nanos: i64,
) -> ContainerRecordView {
    ContainerRecordView {
        id: crate::fake::record::id_text("ct-"@, stamp_nanos as int, count as nat),
        sandbox,
        config: cfg,
        state: ContainerState::Created,
        created_at_nanos: now_nanos,
        started_at_nanos: 0,
        finished_at_nanos: 0,
        exit_code: 0,
        reason: Seq::empty(),
        message: Seq::empty(),
        pid: 0,
    }
}

/// How a process ended, as far as could be seen.
#[derive(Debug)]
pub enum ExitReport {
    /// By a signal, or with an exit code.
    Ended { signal: Option<i32>, code: Option<i32> },
    /// It could not be waited for.
    WaitFailed(String),
}

/// The exit code of a process that ended by the signal, or else with the code.
pub open spec fn exit_code_of(signal: Option<i32>, code: Option<i32>) -> int {
    match signal {
        Some(sig) => 128 + sig,
        None => match code {
            Some(c) => c as int,
            None => 0,
        },
    }
}

/// The exit code of a process that ended by the signal, or else with the code.
pub fn exit_code_from_status(signal: Option<i32>, code: Option<i32>) -> (r: i32)
    requires
        signal matches Some(sig) ==> 128 + sig <= i32::MAX,
    ensures
        r == exit_code_of(signal, code),
{
    match signal {
        Some(sig) => 128 + sig,
        None => match code {
            Some(c) => c,
            None => 0,
        },
    }
}

impl ExitReport {
    /// A signal whose exit code can be written down.
    pub open spec fn wf(self) -> bool {
        self matches ExitReport::Ended { signal: Some(sig), code: _ } ==> 128 + sig <= i32::MAX
    }

    /// The exit code that is noted.
    pub open spec fn exit_code(self) -> int {
        match self {
            ExitReport::Ended { signal, code } => exit_code_of(signal, code),
            ExitReport::WaitFailed(_) => -1,
        }
    }

    /// The reason that is noted.
    pub open spec fn reason(self) -> Seq<char> {
        match self {
            ExitReport::Ended { signal: Some(sig), code: _ } => "killed-by-signal-"@
                + crate::text::dec_signed(sig as int),
            ExitReport::Ended { signal: None, code: _ } => Seq::empty(),
            ExitReport::WaitFailed(e) => "wait-error: "@ + e@,
        }
    }
}

/// The exit code and the reason that are noted of a process that ended.
pub fn exit_note(report: &ExitReport) -> (r: (i32, String))
    requires
        report.wf(),
    ensures
        r.0 == report.exit_code(),
        r.1@ == report.reason(),
{
    match report {
        ExitReport::Ended { signal, code } => match signal {
            Some(sig) => {
                let mut reason = "killed-by-signal-".to_owned();
                push_decimal_signed(&mut reason, *sig as i64);
                (128 + *sig, reason)
            },
            None => (exit_code_from_status(*signal, *code), String::new()),
        },
        ExitReport::WaitFailed(e) => {
            let mut reason = "wait-error: ".to_owned();
            reason.append(e.as_str());
            (-1, reason)
        },
    }
}

impl BackendView {
    /// After the container's process ended: its streams are no longer held, and if it was running
    /// it has exited.
    pub open spec fn exited_container(
        self,
        id: Seq<char>,
        exit_code: i32,
        reason: Seq<char>,
        now_nanos: i64,
    ) -> BackendView {
        let b = self.drop_io(id);
        if b.is_running(id) {
            b.put_container(
                ContainerRecordView {
                    state: ContainerState::Exited,
                    exit_code,
                    finished_at_nanos: now_nanos,
                    reason,
                    ..self.containers[id]
                },
            )
        } else {
            b
        }
    }

    /// Whether the container is known and running.
    pub open spec fn is_running(self, id: Seq<char>) -> bool {
        self.containers.dom().contains(id) && self.containers[id].state == ContainerState::Running
    }
}

impl BackendView {
    /// What is reported of a container.
    pub open spec fn container_reported(self, id: Seq<char>) -> Result<
        ContainerStatusView,
        BackendErrorView,
    > {
        if self.containers.dom().contains(id) {
            Ok(crate::fake::record::container_status_of(self.containers[id]))
        } else {
            Err(no_container(id))
        }
    }

    /// After a new container is taken in, where its record was written, with its name.
    pub open spec fn container_taken_in(
        self,
        rec: ContainerRecordView,
        written: Result<(), WriteFault>,
    ) -> (BackendView, Result<Seq<char>, BackendErrorView>) {
        match written {
            Ok(_) => (self.put_container(rec), Ok(rec.id)),
            Err(f) => (self, Err(crate::fake::disk::write_error_of(f))),
        }
    }

    /// After a container that is not running was removed, and whether there was one.
    pub open spec fn container_removed(self, id: Seq<char>) -> (
        BackendView,
        Result<bool, BackendErrorView>,
    ) {
        if self.is_running(id) {
            (self, Err(still_running(id)))
        } else if self.containers.dom().contains(id) {
            (self.drop_container(id), Ok(true))
        } else {
            (self, Ok(false))
        }
    }
}

impl FakeBackend {
    /// Makes the record of a new container of the sandbox, named after the moment `stamp_nanos` and
    /// the count. It is to be written, and then handed to
    /// [`FakeBackend::create_container_written`].
    pub fn create_container(
        &self,
        sandbox: &SandboxId,
        cfg: ContainerConfig,
        stamp_nanos: i64,
        count: u64,
        now_nanos: i64,
    ) -> (r: Result<ContainerRecord, BackendError>)
        ensures
            match r {
                Ok(rec) => create_refusal(self@, sandbox@) is None && rec@ == fresh_container(
                    sandbox@,
                    cfg@,
                    stamp_nanos,
                    count,
                    now_nanos,
                ),
                Err(e) => create_refusal(self@, sandbox@) == Some(e@),
            },
    {
        match self.sandboxes.get(sandbox.0.as_str()) {
            None => {
                return Err(no_sandbox_error(sandbox));
            },
            Some(sb) => {
                if sb.state != SandboxState::Ready {
                    return Err(
                        BackendError::FailedPrecondition(
                            join3("sandbox ", sandbox.0.as_str(), " is not Ready"),
                        ),
                    );
                }
            },
        }
        Ok(
            ContainerRecord {
                id: ContainerId(new_id("ct-", stamp_nanos, count)),
                sandbox: sandbox.clone(),
                config: cfg,
                state: ContainerState::Created,
                created_at_nanos: now_nanos,
                started_at_nanos: 0,
                finished_at_nanos: 0,
                exit_code: 0,
                reason: String::new(),
                message: String::new(),
                pid: 0,
            },
        )
    }

    /// Takes the new container in, where its record was written.
    pub fn create_container_written(
        &mut self,
        rec: ContainerRecord,
        written: Result<(), WriteFault>,
    ) -> (r: Result<ContainerId, BackendError>)
        requires
            old(self)@.wf(),
        ensures
            final(self)@.wf(),
            final(self)@ == old(self)@.container_taken_in(rec@, written).0,
            match old(self)@.container_taken_in(rec@, written).1 {
                Ok(id) => r matches Ok(x) && x@ == id,
                Err(e) => r matches Err(x) && x@ == e,
            },
    {
        match written {
            Err(f) => Err(write_error(f)),
            Ok(_) => {
                let id = rec.id.clone();
                self.store_container(rec);
                Ok(id)
            },
        }
    }

    /// Reports a container.
    pub fn container_status(&self, id: &ContainerId) -> (r: Result<ContainerStatus, BackendError>)
        ensures
            match self@.container_reported(id@) {
                Ok(s) => r matches Ok(x) && x@ == s,
                Err(e) => r matches Err(x) && x@ == e,
            },
    {
        match self.containers.get(id.0.as_str()) {
            Some(rec) => Ok(rec_to_status(rec)),
            None => Err(no_container_error(id)),
        }
    }

    /// Reports the containers that agree with the filter, in the order of their names.
    pub fn list_containers(&self, filter: &ContainerFilter) -> (r: Result<
        Vec<ContainerStatus>,
        BackendError,
    >)
        ensures
            r matches Ok(v) && v.deep_view() == listed_containers(self@, filter@),
    {
        let ghost m = self.containers@;
        let ghost p = |rec: ContainerRecordView| container_picked(rec, filter@);
        let ghost f = |rec: ContainerRecordView| crate::fake::record::container_status_of(rec);
        let ghost q = |k: Seq<char>| p(m[k]);
        let ghost g = |k: Seq<char>| f(m[k]);
        let n = self.containers.len();
        let ghost keys = self.containers.keys();
        let mut out: Vec<ContainerStatus> = Vec::new();
        let mut i: usize = 0;
        proof {
            reveal(Seq::filter);
            assert(out.deep_view() =~= keys.take(0).filter(q).map_values(g));
        }
        while i < n
            invariant
                i <= n,
                n == keys.len(),
                keys == self.containers.keys(),
                m == self.containers@,
                p == (|rec: ContainerRecordView| container_picked(rec, filter@)),
                f == (|rec: ContainerRecordView| crate::fake::record::container_status_of(rec)),
                q == (|k: Seq<char>| p(m[k])),
                g == (|k: Seq<char>| f(m[k])),
                out.deep_view() == keys.take(i as int).filter(q).map_values(g),
            decreases n - i,
        {
            let (_, rec) = self.containers.at(i);
            let ghost before = out.deep_view();
            proof {
                crate::seqs::lemma_filter_take(keys, q, i as int);
            }
            if container_matches(rec, filter) {
                out.push(rec_to_status(rec));
                assert(out.deep_view() =~= before.push(g(keys[i as int])));
                assert(out.deep_view() =~= keys.take(i + 1).filter(q).map_values(g));
            }
            i = i + 1;
        }
        proof {
            assert(keys.take(n as int) =~= keys);
            crate::text_map::lemma_listing(keys, m, p, f);
        }
        Ok(out)
    }

    /// The names of the containers that agree with the filter, in order.
    pub fn container_ids(&self, filter: &ContainerFilter) -> (r: Vec<ContainerId>)
        ensures
            names(r@) == crate::text_map::sorted(
                crate::text_map::picked(
                    self@.containers,
                    |rec: ContainerRecordView| container_picked(rec, filter@),
                ),
            ),
    {
        let ghost m = self.containers@;
        let ghost p = |rec: ContainerRecordView| container_picked(rec, filter@);
        let ghost q = |k: Seq<char>| p(m[k]);
        let n = self.containers.len();
        let ghost keys = self.containers.keys();
        let mut out: Vec<ContainerId> = Vec::new();
        let mut i: usize = 0;
        proof {
            reveal(Seq::filter);
            assert(names(out@) =~= keys.take(0).filter(q));
        }
        while i < n
            invariant
                i <= n,
                n == keys.len(),
                keys == self.containers.keys(),
                m == self.containers@,
                p == (|rec: ContainerRecordView| container_picked(rec, filter@)),
                q == (|k: Seq<char>| p(m[k])),
                names(out@) == keys.take(i as int).filter(q),
            decreases n - i,
        {
            let (k, rec) = self.containers.at(i);
            let ghost before = names(out@);
            proof {
                crate::seqs::lemma_filter_take(keys, q, i as int);
            }
            if container_matches(rec, filter) {
                out.push(ContainerId(k.clone()));
                assert(names(out@) =~= before.push(keys[i as int]));
            }
            i = i + 1;
        }
        proof {
            assert(keys.take(n as int) =~= keys);
            crate::text_map::lemma_listing(keys, m, p, |rec: ContainerRecordView| rec);
        }
        out
    }

    /// Removes a container that is not running. It says whether there was one, and so whether its
    /// file is to be deleted.
    pub fn remove_container(&mut self, id: &ContainerId) -> (r: Result<bool, BackendError>)
        requires
            old(self)@.wf(),
        ensures
            final(self)@.wf(),
            final(self)@ == old(self)@.container_removed(id@).0,
            match old(self)@.container_removed(id@).1 {
                Ok(known) => r == Ok::<bool, BackendError>(known),
                Err(e) => r matches Err(x) && x@ == e,
            },
    {
        match self.containers.get(id.0.as_str()) {
            None => {
                return Ok(false);
            },
            Some(rec) => {
                if rec.state == ContainerState::Running {
                    return Err(
                        BackendError::FailedPrecondition(
                            join3("container ", id.0.as_str(), " is Running; stop it first"),
                        ),
                    );
                }
            },
        }
        self.containers.remove(id.0.as_str());
        self.io_table.remove(id.0.as_str());
        assert(self@ =~= old(self)@.drop_container(id@));
        Ok(true)
    }

    /// Notes that the process of a container ended. Its record comes back where it changed, and is
    /// to be written.
    pub fn container_exited(
        &mut self,
        id: &ContainerId,
        report: &ExitReport,
        now_nanos: i64,
    ) -> (r: Option<ContainerRecord>)
        requires
            old(self)@.wf(),
            report.wf(),
        ensures
            final(self)@.wf(),
            final(self)@ == old(self)@.exited_container(
                id@,
                report.exit_code() as i32,
                report.reason(),
                now_nanos,
            ),
            r is Some <==> old(self)@.is_running(id@),
            r matches Some(rec) ==> rec@ == final(self)@.containers[id@],
    {
        let (exit_code, reason) = exit_note(report);
        self.io_table.remove(id.0.as_str());
        assert(self@ =~= old(self)@.drop_io(id@));
        let rec = match self.containers.get(id.0.as_str()) {
            None => {
                return None;
            },
            Some(rec) => {
                if rec.state != ContainerState::Running {
                    return None;
                }
                let mut rec = rec.clone();
                rec.state = ContainerState::Exited;
                rec.exit_code = exit_code;
                rec.finished_at_nanos = now_nanos;
                rec.reason = reason;
                rec
            },
        };
        self.store_container(rec.clone());
        Some(rec)
    }
}

/// A filter that says nothing picks every container; one that names a sandbox picks its containers
/// and no others.
pub proof fn law_filters_pick_containers(rec: ContainerRecordView, sandbox: Seq<char>)
    ensures
        container_picked(rec, ContainerFilterView::all()),
        container_picked(
            rec,
            ContainerFilterView { sandbox: Some(sandbox), ..ContainerFilterView::all() },
        ) <==> rec.sandbox == sandbox,
{
}

/// Whether the reported container agrees with every part of the filter.
pub open spec fn status_picked(s: ContainerStatusView, filter: ContainerFilterView) -> bool {
    &&& filter.id matches Some(id) ==> s.id == id
    &&& filter.sandbox matches Some(sb) ==> s.sandbox == sb
    &&& filter.state matches Some(state) ==> s.state == state
    &&& crate::fake::sandbox::labels_match(s.config.labels, filter.label_selector)
}

/// The containers that a filter picks, as they are listed.
pub open spec fn listed_containers(b: BackendView, filter: ContainerFilterView) -> Seq<
    ContainerStatusView,
> {
    crate::text_map::listing(
        b.containers,
        |rec: ContainerRecordView| container_picked(rec, filter),
        |rec: ContainerRecordView| crate::fake::record::container_status_of(rec),
    )
}

/// A filtered list is the full list without the containers that disagree with the filter. The full
/// list holds every container once, in the ascending order of their names.
pub proof fn law_filtered_list_is_the_filtered_full_list(b: BackendView, filter: ContainerFilterView)
    requires
        b.wf(),
    ensures
        ({
            let full = listed_containers(b, ContainerFilterView::all());
            let names = full.map_values(|s: ContainerStatusView| s.id);
            &&& listed_containers(b, filter) == full.filter(
                |s: ContainerStatusView| status_picked(s, filter),
            )
            &&& crate::text_map::ascending(names)
            &&& names.no_duplicates()
            &&& names.to_set() == b.containers.dom()
            &&& forall|i: int|
                0 <= i < full.len() ==> #[trigger] full[i]
                    == crate::fake::record::container_status_of(b.containers[names[i]])
        }),
{
    let none = ContainerFilterView::all();
    let f = |rec: ContainerRecordView| crate::fake::record::container_status_of(rec);
    crate::text_map::lemma_listing_filters(
        b.containers,
        |rec: ContainerRecordView| container_picked(rec, filter),
        f,
        |rec: ContainerRecordView| container_picked(rec, none),
        |s: ContainerStatusView| status_picked(s, filter),
    );
    let keys = crate::text_map::sorted(b.containers.dom());
    let full = listed_containers(b, none);
    assert(full.map_values(|s: ContainerStatusView| s.id) =~= keys) by {
        assert forall|i: int| 0 <= i < keys.len() implies (#[trigger] full[i]).id == keys[i] by {
            assert(keys.to_set().contains(keys[i]));
        }
    }
}

/// Once the process of a container has ended, the container is not running and none of its streams
/// are held; if it was not running before, its record is as it was.
pub proof fn law_exited_is_not_running(
    b: BackendView,
    id: Seq<char>,
    exit_code: i32,
    reason: Seq<char>,
    now_nanos: i64,
)
    requires
        b.wf(),
    ensures
        ({
            let after = b.exited_container(id, exit_code, reason, now_nanos);
            &&& !after.is_running(id)
            &&& !after.io.dom().contains(id)
            &&& !b.is_running(id) ==> after.containers == b.containers
            &&& after.exited_container(id, exit_code, reason, now_nanos) == after
        }),
{
    let after = b.exited_container(id, exit_code, reason, now_nanos);
    if b.containers.dom().contains(id) {
        assert(b.containers[id].id == id);
    }
    assert(after.exited_container(id, exit_code, reason, now_nanos) =~= after);
}

/// A process that a signal ended has 128 and that signal for a code, and the reason names the signal;
/// any other has the code that it ended with, or 0, and no reason. One that could not be waited for
/// has -1, and the reason says why.
pub proof fn law_end_is_noted_as_it_was(signal: Option<i32>, code: Option<i32>, fault: String)
    ensures
        ({
            let r = ExitReport::Ended { signal, code };
            &&& signal matches Some(sig) ==> r.exit_code() == 128 + sig && r.reason()
                == "killed-by-signal-"@ + crate::text::dec_signed(sig as int)
            &&& signal is None && code is Some ==> r.exit_code() == code->0 && r.reason().len() == 0
            &&& signal is None && code is None ==> r.exit_code() == 0 && r.reason().len() == 0
        }),
        ExitReport::WaitFailed(fault).exit_code() == -1,
        fault@.is_suffix_of(ExitReport::WaitFailed(fault).reason()),
        ExitReport::WaitFailed(fault).reason().len() > fault@.len(),
        signal matches Some(sig) ==> exit_code_of(signal, code) == 128 + sig,
        signal is None ==> exit_code_of(signal, code) == (if code is Some {
            code->0 as int
        } else {
            0
        }),
{
    reveal_strlit("wait-error: ");
    let reason = ExitReport::WaitFailed(fault).reason();
    assert(reason.subrange(reason.len() - fault@.len(), reason.len() as int) =~= fault@);
}

/// When the process of a running container ends, the container has exited at that time, with the code
/// and the reason that are noted of its process; what it is and when it began stays. Its streams
/// are given up, and nothing else changes.
pub proof fn law_exit_is_recorded(
    b: BackendView,
    id: Seq<char>,
    exit_code: i32,
    reason: Seq<char>,
    now_nanos: i64,
)
    requires
        b.wf(),
        b.is_running(id),
    ensures
        ({
            let after = b.exited_container(id, exit_code, reason, now_nanos);
            let rec = after.containers[id];
            let before = b.containers[id];
            &&& after.containers.dom() == b.containers.dom()
            &&& rec.state == ContainerState::Exited
            &&& rec.exit_code == exit_code
            &&& rec.reason == reason
            &&& rec.finished_at_nanos == now_nanos
            &&& rec.id == id && rec.sandbox == before.sandbox && rec.config == before.config
            &&& rec.created_at_nanos == before.created_at_nanos && rec.started_at_nanos
                == before.started_at_nanos && rec.message == before.message && rec.pid
                == before.pid
            &&& !after.io.dom().contains(id)
            &&& crate::fake::stop::only_differs_at(b, id, after)
            &&& after.state_root == b.state_root
        }),
{
    let after = b.exited_container(id, exit_code, reason, now_nanos);
    assert(b.containers[id].id == id);
    assert(after.containers.dom() =~= b.containers.dom());
    assert(after.containers.remove(id) =~= b.containers.remove(id));
    assert(after.io.remove(id) =~= b.io.remove(id));
}

/// A container that was created is in the sandbox and has the configuration that was asked for. It
/// has neither begun nor ended, and has no process.
pub proof fn law_new_container_has_not_begun(
    sandbox: Seq<char>,
    cfg: ContainerConfigView,
    stamp_nanos: i64,
    count: u64,
    now_nanos: i64,
)
    ensures
        ({
            let rec = fresh_container(sandbox, cfg, stamp_nanos, count, now_nanos);
            &&& rec.sandbox == sandbox
            &&& rec.config == cfg
            &&& rec.state == ContainerState::Created
            &&& rec.created_at_nanos == now_nanos
            &&& rec.started_at_nanos == 0 && rec.finished_at_nanos == 0
            &&& rec.exit_code == 0 && rec.pid == 0
            &&& rec.reason.len() == 0 && rec.message.len() == 0
            &&& "ct-"@.is_prefix_of(rec.id)
        }),
{
    crate::fake::record::law_names_tell_their_kind(stamp_nanos as int, count as nat, 0, 0);
}

/// Two containers that were created at different moments, or with different counts, have different
/// names.
pub proof fn law_new_containers_are_distinct(
    sandbox: Seq<char>,
    cfg: ContainerConfigView,
    stamp: i64,
    count: u64,
    other_sandbox: Seq<char>,
    other_cfg: ContainerConfigView,
    other_stamp: i64,
    other_count: u64,
    now_nanos: i64,
)
    requires
        stamp != other_stamp || count != other_count,
    ensures
        fresh_container(sandbox, cfg, stamp, count, now_nanos).id != fresh_container(
            other_sandbox,
            other_cfg,
            other_stamp,
            other_count,
            now_nanos,
        ).id,
{
    if crate::fake::record::id_text("ct-"@, stamp as int, count as nat)
        == crate::fake::record::id_text("ct-"@, other_stamp as int, other_count as nat) {
        crate::fake::record::law_ids_are_distinct(
            "ct-"@,
            stamp as int,
            count as nat,
            other_stamp as int,
            other_count as nat,
        );
    }
}

/// A container is created in a sandbox that is known and Ready, and only there.
pub proof fn law_containers_are_created_in_ready_sandboxes(b: BackendView, sandbox: Seq<char>)
    ensures
        create_refusal(b, sandbox) is None <==> b.sandboxes.dom().contains(sandbox)
            && b.sandboxes[sandbox].state == SandboxState::Ready,
        create_refusal(b, sandbox) matches Some(e) ==> {
            &&& e is NotFound <==> !b.sandboxes.dom().contains(sandbox)
            &&& e is FailedPrecondition <==> b.sandboxes.dom().contains(sandbox)
        },
{
}

/// What is unknown is not found, and what runs must be stopped first; the error names the container.
pub proof fn law_errors_name_the_container(id: Seq<char>)
    ensures
        no_container(id) matches BackendErrorView::NotFound(m) && id.is_suffix_of(m),
        still_running(id) matches BackendErrorView::FailedPrecondition(m) && ("container "@
            + id).is_prefix_of(m),
{
    let m = "container "@ + id;
    assert(m.subrange(m.len() - id.len(), m.len() as int) =~= id);
    let n = "container "@ + id + " is Running; stop it first"@;
    assert(n.subrange(0, m.len() as int) =~= m);
}

/// A container that is created, started and then removed leaves nothing behind; other containers keep
/// their records and their streams.
pub proof fn law_removed_container_is_gone(b: BackendView, id: Seq<char>, other: Seq<char>)
    requires
        other != id,
    ensures
        ({
            let after = b.drop_container(id);
            &&& !after.containers.dom().contains(id)
            &&& !after.io.dom().contains(id)
            &&& after.containers.dom().contains(other) <==> b.containers.dom().contains(other)
            &&& after.containers[other] == b.containers[other]
            &&& after.io.dom().contains(other) <==> b.io.dom().contains(other)
            &&& after.io[other] == b.io[other]
            &&& after.sandboxes == b.sandboxes && after.images == b.images
            &&& after.state_root == b.state_root
        }),
{
}

/// A container that runs is not removed, and nothing changes; any other is gone afterwards, with its
/// streams, and there was one if it was known. Removing it again finds none.
pub proof fn law_running_container_is_not_removed(b: BackendView, id: Seq<char>)
    ensures
        ({
            let (after, r) = b.container_removed(id);
            &&& r is Err <==> b.is_running(id)
            &&& r matches Err(e) ==> e is FailedPrecondition && after == b
            &&& r matches Ok(known) ==> (known <==> b.containers.dom().contains(id))
                && !after.containers.dom().contains(id) && after.container_removed(id) == (
                after,
                Ok::<bool, BackendErrorView>(false),
            )
            &&& r == Ok::<bool, BackendErrorView>(true) ==> !after.io.dom().contains(id)
            &&& crate::fake::stop::only_differs_at(b, id, after)
        }),
{
    let after = b.container_removed(id).0;
    assert(after.containers.remove(id) =~= b.containers.remove(id));
    assert(after.io.remove(id) =~= b.io.remove(id));
}

/// A container that could be written is known from then on, and is reported as its record says; one
/// that could not be written is not, and nothing changes.
pub proof fn law_what_is_written_is_reported(
    b: BackendView,
    rec: ContainerRecordView,
    fault: WriteFault,
    id: Seq<char>,
)
    ensures
        ({
            let (after, r) = b.container_taken_in(rec, Ok(()));
            &&& r == Ok::<Seq<char>, BackendErrorView>(rec.id)
            &&& after.container_reported(rec.id) matches Ok(s) && s.id == rec.id && s.state
                == rec.state && s.config == rec.config && s.sandbox == rec.sandbox
            &&& id != rec.id ==> after.container_reported(id) == b.container_reported(id)
            &&& after.sandboxes == b.sandboxes && after.images == b.images && after.io == b.io
        }),
        b.container_taken_in(rec, Err(fault)).0 == b,
        b.container_taken_in(rec, Err(fault)).1 is Err,
        b.container_reported(id) is Ok <==> b.containers.dom().contains(id),
        b.container_reported(id) matches Err(e) ==> e is NotFound,
{
}

} // verus!
