//! Sandboxes: made Ready, stopped, reported and listed.

use crate::fake::disk::{write_error, WriteFault};
use crate::fake::record::{new_id, sandbox_rec_to_status, SandboxRecord, SandboxRecordView};
use crate::fake::{BackendView, FakeBackend};
use crate::text::same_text;
use crate::text_map::TextMap;
use crate::types::{
    BackendError, BackendErrorView, SandboxConfig, SandboxConfigView, SandboxFilter,
    SandboxFilterView, SandboxId, SandboxState, SandboxStatus, SandboxStatusView,
};
use vstd::prelude::*;
use vstd::string::*;

verus! {

/// Whether the labels hold every pair of the selector.
pub open spec fn labels_match(
    labels: Map<Seq<char>, Seq<char>>,
    selector: Map<Seq<char>, Seq<char>>,
) -> bool {
    forall|k: Seq<char>| #[trigger]
        selector.dom().contains(k) ==> labels.dom().contains(k) && labels[k] == selector[k]
}

/// Whether the labels hold every pair of the selector.
pub fn select_labels(labels: &TextMap<String>, selector: &TextMap<String>) -> (r: bool)
    ensures
        r == labels_match(labels@, selector@),
{
    let n = selector.len();
    let mut i: usize = 0;
    while i < n
        invariant
            i <= n,
            n == selector.keys().len(),
            selector.keys_are_dom(),
            forall|j: int|
                0 <= j < i ==> labels@.dom().contains(#[trigger] selector.keys()[j])
                    && labels@[selector.keys()[j]] == selector@[selector.keys()[j]],
        decreases n - i,
    {
        let (k, v) = selector.at(i);
        let same = match labels.get(k.as_str()) {
            Some(w) => same_text(w.as_str(), v.as_str()),
            None => false,
        };
        if !same {
            assert(selector@.dom().contains(k@));
            return false;
        }
        i = i + 1;
    }
    assert forall|k: Seq<char>| #[trigger] selector@.dom().contains(k) implies labels@.dom().contains(
        k,
    ) && labels@[k] == selector@[k] by {
        let j = selector.keys().index_of(k);
        assert(selector.keys()[j] == k);
    }
    true
}

/// Whether the sandbox agrees with every part of the filter.
pub open spec fn sandbox_picked(rec: SandboxRecordView, filter: SandboxFilterView) -> bool {
    &&& filter.id matches Some(id) ==> rec.id == id
    &&& filter.state matches Some(s) ==> rec.state == s
    &&& labels_match(rec.config.labels, filter.label_selector)
}

/// Whether the sandbox agrees with every part of the filter.
pub fn sandbox_matches(rec: &SandboxRecord, filter: &SandboxFilter) -> (r: bool)
    ensures
        r == sandbox_picked(rec@, filter@),
{
    if let Some(id) = &filter.id {
        if !same_text(rec.id.0.as_str(), id.0.as_str()) {
            return false;
        }
    }
    if let Some(state) = &filter.state {
        if rec.state != *state {
            return false;
        }
    }
    select_labels(&rec.config.labels, &filter.label_selector)
}

/// There is no such sandbox.
pub open spec fn no_sandbox(id: Seq<char>) -> BackendErrorView {
    BackendErrorView::NotFound("sandbox "@ + id)
}

/// There is no such sandbox.
pub fn no_sandbox_error(id: &SandboxId) -> (r: BackendError)
    ensures
        r@ == no_sandbox(id@),
{
    let mut m = "sandbox ".to_owned();
    m.append(id.0.as_str());
    BackendError::NotFound(m)
}

/// The record of a sandbox that is made.
pub open spec fn fresh_sandbox(
    cfg: SandboxConfigView,
    stamp_nanos: i64,
    count: u64,
    now_nanos: i64,
) -> SandboxRecordView {
    SandboxRecordView {
        id: crate::fake::record::id_text("sb-"@, stamp_nanos as int, count as nat),
        config: cfg,
        state: SandboxState::Ready,
        created_at_nanos: now_nanos,
    }
}

impl BackendView {
    /// After the sandbox was stopped: it is no longer Ready, if it is known.
    pub open spec fn stopped_sandbox(self, id: Seq<char>) -> BackendView {
        if self.sandboxes.dom().contains(id) {
            self.put_sandbox(
                SandboxRecordView { state: SandboxState::NotReady, ..self.sandboxes[id] },
            )
        } else {
            self
        }
    }
}

impl BackendView {
    /// What is reported of a sandbox.
    pub open spec fn sandbox_reported(self, id: Seq<char>) -> Result<
        SandboxStatusView,
        BackendErrorView,
    > {
        if self.sandboxes.dom().contains(id) {
            Ok(crate::fake::record::sandbox_status_of(self.sandboxes[id]))
        } else {
            Err(no_sandbox(id))
        }
    }

    /// After a new sandbox is taken in, where its record was written, with its name.
    pub open spec fn sandbox_taken_in(
        self,
        rec: SandboxRecordView,
        written: Result<(), WriteFault>,
    ) -> (BackendView, Result<Seq<char>, BackendErrorView>) {
        match written {
            Ok(_) => (self.put_sandbox(rec), Ok(rec.id)),
            Err(f) => (self, Err(crate::fake::disk::write_error_of(f))),
        }
    }
}

impl FakeBackend {
    /// Makes the record of a new sandbox, named after the moment `stamp_nanos` and the count. It is
    /// to be written, and then handed to [`FakeBackend::run_sandbox_written`].
    pub fn run_sandbox(
        &self,
        cfg: SandboxConfig,
        stamp_nanos: i64,
        count: u64,
        now_nanos: i64,
    ) -> (r: SandboxRecord)
        ensures
            r@ == fresh_sandbox(cfg@, stamp_nanos, count, now_nanos),
    {
        SandboxRecord {
            id: SandboxId(new_id("sb-", stamp_nanos, count)),
            config: cfg,
            state: SandboxState::Ready,
            created_at_nanos: now_nanos,
        }
    }

    /// Takes the new sandbox in, where its record was written.
    pub fn run_sandbox_written(
        &mut self,
        rec: SandboxRecord,
        written: Result<(), WriteFault>,
    ) -> (r: Result<SandboxId, BackendError>)
        requires
            old(self)@.wf(),
        ensures
            final(self)@.wf(),
            final(self)@ == old(self)@.sandbox_taken_in(rec@, written).0,
            match old(self)@.sandbox_taken_in(rec@, written).1 {
                Ok(id) => r matches Ok(x) && x@ == id,
                Err(e) => r matches Err(x) && x@ == e,
            },
    {
        match written {
            Err(f) => Err(write_error(f)),
            Ok(_) => {
                let id = rec.id.clone();
                self.store_sandbox(rec);
                Ok(id)
            },
        }
    }

    /// Stops a sandbox. Its record comes back where it changed, and is to be written; a sandbox
    /// that is unknown, or stopped already, is left as it is.
    pub fn stop_sandbox(&mut self, id: &SandboxId) -> (r: Option<SandboxRecord>)
        requires
            old(self)@.wf(),
        ensures
            final(self)@.wf(),
            final(self)@ == old(self)@.stopped_sandbox(id@),
            r is Some <==> old(self)@.sandboxes.dom().contains(id@) && old(self)@.sandboxes[id@].state
                == SandboxState::Ready,
            r matches Some(rec) ==> rec@ == final(self)@.sandboxes[id@],
    {
        let rec = match self.sandboxes.get(id.0.as_str()) {
            None => {
                return None;
            },
            Some(r) => {
                if r.state == SandboxState::NotReady {
                    assert(self@.sandboxes =~= old(self)@.stopped_sandbox(id@).sandboxes);
                    return None;
                }
                let mut rec = r.clone();
                rec.state = SandboxState::NotReady;
                rec
            },
        };
        self.store_sandbox(rec.clone());
        Some(rec)
    }

    /// Reports a sandbox.
    pub fn sandbox_status(&self, id: &SandboxId) -> (r: Result<SandboxStatus, BackendError>)
        ensures
            match self@.sandbox_reported(id@) {
                Ok(s) => r matches Ok(x) && x@ == s,
                Err(e) => r matches Err(x) && x@ == e,
            },
    {
        match self.sandboxes.get(id.0.as_str()) {
            Some(rec) => Ok(sandbox_rec_to_status(rec)),
            None => Err(no_sandbox_error(id)),
        }
    }

    /// Reports the sandboxes that agree with the filter, in the order of their names.
    pub fn list_sandboxes(&self, filter: &SandboxFilter) -> (r: Result<
        Vec<SandboxStatus>,
        BackendError,
    >)
        ensures
            r matches Ok(v) && v.deep_view() == listed_sandboxes(self@, filter@),
    {
        let ghost m = self.sandboxes@;
        let ghost p = |rec: SandboxRecordView| sandbox_picked(rec, filter@);
        let ghost f = |rec: SandboxRecordView| crate::fake::record::sandbox_status_of(rec);
        let ghost q = |k: Seq<char>| p(m[k]);
        let ghost g = |k: Seq<char>| f(m[k]);
        let n = self.sandboxes.len();
        let ghost keys = self.sandboxes.keys();
        let mut out: Vec<SandboxStatus> = Vec::new();
        let mut i: usize = 0;
        proof {
            reveal(Seq::filter);
            assert(out.deep_view() =~= keys.take(0).filter(q).map_values(g));
        }
        while i < n
            invariant
                i <= n,
                n == keys.len(),
                keys == self.sandboxes.keys(),
                m == self.sandboxes@,
                p == (|rec: SandboxRecordView| sandbox_picked(rec, filter@)),
                f == (|rec: SandboxRecordView| crate::fake::record::sandbox_status_of(rec)),
                q == (|k: Seq<char>| p(m[k])),
                g == (|k: Seq<char>| f(m[k])),
                out.deep_view() == keys.take(i as int).filter(q).map_values(g),
            decreases n - i,
        {
            let (_, rec) = self.sandboxes.at(i);
            let ghost before = out.deep_view();
            proof {
                crate::seqs::lemma_filter_take(keys, q, i as int);
            }
            if sandbox_matches(rec, filter) {
                out.push(sandbox_rec_to_status(rec));
                assert(out.deep_view() =~= before.push(g(keys[i as int])));
                assert(out.deep_view() =~= keys.take(i + 1).filter(q).map_values(g));
            }
            i = i + 1;
        }
        proof {
            assert(keys.take(n as int) =~= keys);
            crate::text_map::lemma_listing(keys, m, p, f);
        }
        Ok(out)
    }
}

/// To stop a sandbox twice is to stop it once, and no container can be created in it any more.
pub proof fn law_stopped_sandbox_stays_stopped(b: BackendView, id: Seq<char>)
    requires
        b.wf(),
    ensures
        b.stopped_sandbox(id).stopped_sandbox(id) == b.stopped_sandbox(id),
        crate::fake::container::create_refusal(b.stopped_sandbox(id), id) is Some,
{
    if b.sandboxes.dom().contains(id) {
        assert(b.sandboxes[id].id == id);
        assert(b.stopped_sandbox(id).stopped_sandbox(id) =~= b.stopped_sandbox(id));
    }
}

/// A filter that says nothing picks every sandbox; one that names a sandbox picks no other.
pub proof fn law_filters_pick_sandboxes(rec: SandboxRecordView, id: Seq<char>)
    ensures
        sandbox_picked(rec, SandboxFilterView::all()),
        sandbox_picked(rec, SandboxFilterView { id: Some(id), ..SandboxFilterView::all() })
            <==> rec.id == id,
{
}

/// Whether the reported sandbox agrees with every part of the filter.
pub open spec fn status_picked(s: SandboxStatusView, filter: SandboxFilterView) -> bool {
    &&& filter.id matches Some(id) ==> s.id == id
    &&& filter.state matches Some(state) ==> s.state == state
    &&& labels_match(s.config.labels, filter.label_selector)
}

/// The sandboxes that a filter picks, as they are listed.
pub open spec fn listed_sandboxes(b: BackendView, filter: SandboxFilterView) -> Seq<
    SandboxStatusView,
> {
    crate::text_map::listing(
        b.sandboxes,
        |rec: SandboxRecordView| sandbox_picked(rec, filter),
        |rec: SandboxRecordView| crate::fake::record::sandbox_status_of(rec),
    )
}

/// A filtered list is the full list without the sandboxes that disagree with the filter. The full
/// list holds every sandbox once, in the ascending order of their names.
pub proof fn law_filtered_list_is_the_filtered_full_list(b: BackendView, filter: SandboxFilterView)
    requires
        b.wf(),
    ensures
        ({
            let full = listed_sandboxes(b, SandboxFilterView::all());
            let names = full.map_values(|s: SandboxStatusView| s.id);
            &&& listed_sandboxes(b, filter) == full.filter(
                |s: SandboxStatusView| status_picked(s, filter),
            )
            &&& crate::text_map::ascending(names)
            &&& names.no_duplicates()
            &&& names.to_set() == b.sandboxes.dom()
            &&& forall|i: int|
                0 <= i < full.len() ==> #[trigger] full[i]
                    == crate::fake::record::sandbox_status_of(b.sandboxes[names[i]])
        }),
{
    let none = SandboxFilterView::all();
    crate::text_map::lemma_listing_filters(
        b.sandboxes,
        |rec: SandboxRecordView| sandbox_picked(rec, filter),
        |rec: SandboxRecordView| crate::fake::record::sandbox_status_of(rec),
        |rec: SandboxRecordView| sandbox_picked(rec, none),
        |s: SandboxStatusView| status_picked(s, filter),
    );
    let keys = crate::text_map::sorted(b.sandboxes.dom());
    let full = listed_sandboxes(b, none);
    assert(full.map_values(|s: SandboxStatusView| s.id) =~= keys) by {
        assert forall|i: int| 0 <= i < keys.len() implies (#[trigger] full[i]).id == keys[i] by {
            assert(keys.to_set().contains(keys[i]));
        }
    }
}

/// A sandbox that was run is Ready, with the configuration that was asked for; its name tells that
/// it is a sandbox, and differs from that of every other moment and count.
pub proof fn law_new_sandbox_is_ready(
    cfg: SandboxConfigView,
    stamp_nanos: i64,
    count: u64,
    now_nanos: i64,
    other_stamp: i64,
    other_count: u64,
)
    ensures
        ({
            let rec = fresh_sandbox(cfg, stamp_nanos, count, now_nanos);
            let other = fresh_sandbox(cfg, other_stamp, other_count, now_nanos);
            &&& rec.config == cfg
            &&& rec.state == SandboxState::Ready
            &&& rec.created_at_nanos == now_nanos
            &&& "sb-"@.is_prefix_of(rec.id)
            &&& rec.id == other.id ==> stamp_nanos == other_stamp && count == other_count
        }),
{
    crate::fake::record::law_names_tell_their_kind(stamp_nanos as int, count as nat, 0, 0);
    let rec = fresh_sandbox(cfg, stamp_nanos, count, now_nanos);
    let other = fresh_sandbox(cfg, other_stamp, other_count, now_nanos);
    if rec.id == other.id {
        crate::fake::record::law_ids_are_distinct(
            "sb-"@,
            stamp_nanos as int,
            count as nat,
            other_stamp as int,
            other_count as nat,
        );
    }
}

/// Stopping a sandbox makes it not Ready, and changes nothing else of it, nor of anything else: its
/// containers stay as they are. Stopping a sandbox that is unknown changes nothing.
pub proof fn law_stopping_a_sandbox_stops_only_that(b: BackendView, id: Seq<char>, other: Seq<char>)
    requires
        b.wf(),
        other != id,
    ensures
        ({
            let after = b.stopped_sandbox(id);
            &&& after.sandboxes.dom() == b.sandboxes.dom()
            &&& b.sandboxes.dom().contains(id) ==> after.sandboxes[id].state
                == SandboxState::NotReady && after.sandboxes[id].id == id
                && after.sandboxes[id].config == b.sandboxes[id].config
                && after.sandboxes[id].created_at_nanos == b.sandboxes[id].created_at_nanos
            &&& b.sandboxes.dom().contains(other) ==> after.sandboxes[other] == b.sandboxes[other]
            &&& after.containers == b.containers && after.images == b.images && after.io == b.io
            &&& !b.sandboxes.dom().contains(id) ==> after == b
        }),
{
    if b.sandboxes.dom().contains(id) {
        assert(b.sandboxes[id].id == id);
        assert(b.stopped_sandbox(id).sandboxes.dom() =~= b.sandboxes.dom());
    }
}

/// A selector picks what has all of its labels, with the same values: the empty one picks everything,
/// labels pick themselves, and one more label never picks more.
pub proof fn law_selectors_only_narrow(
    labels: Map<Seq<char>, Seq<char>>,
    selector: Map<Seq<char>, Seq<char>>,
    key: Seq<char>,
    value: Seq<char>,
)
    ensures
        labels_match(labels, Map::empty()),
        labels_match(labels, labels),
        !selector.dom().contains(key) ==> (labels_match(labels, selector.insert(key, value)) <==> {
            &&& labels_match(labels, selector)
            &&& labels.dom().contains(key)
            &&& labels[key] == value
        }),
{
    let more = selector.insert(key, value);
    if !selector.dom().contains(key) && labels_match(labels, more) {
        assert(more.dom().contains(key));
        assert forall|k: Seq<char>| #[trigger] selector.dom().contains(k) implies labels.dom().contains(
            k,
        ) && labels[k] == selector[k] by {
            assert(more.dom().contains(k));
        }
    }
}

/// A sandbox that is unknown is not found; the error names it.
pub proof fn law_error_names_the_sandbox(id: Seq<char>)
    ensures
        no_sandbox(id) matches BackendErrorView::NotFound(m) && id.is_suffix_of(m),
{
    let m = "sandbox "@ + id;
    assert(m.subrange(m.len() - id.len(), m.len() as int) =~= id);
}

/// A sandbox that could be written is known from then on, and is reported as its record says; one
/// that could not be written is not, and nothing changes.
pub proof fn law_what_is_written_is_reported(
    b: BackendView,
    rec: SandboxRecordView,
    fault: WriteFault,
    id: Seq<char>,
)
    ensures
        ({
            let (after, r) = b.sandbox_taken_in(rec, Ok(()));
            &&& r == Ok::<Seq<char>, BackendErrorView>(rec.id)
            &&& after.sandbox_reported(rec.id) matches Ok(s) && s.id == rec.id && s.state
                == rec.state && s.config == rec.config && s.created_at_nanos == rec.created_at_nanos
            &&& id != rec.id ==> after.sandbox_reported(id) == b.sandbox_reported(id)
            &&& after.containers == b.containers && after.images == b.images && after.io == b.io
        }),
        b.sandbox_taken_in(rec, Err(fault)).0 == b,
        b.sandbox_taken_in(rec, Err(fault)).1 is Err,
        b.sandbox_reported(id) is Ok <==> b.sandboxes.dom().contains(id),
        b.sandbox_reported(id) matches Err(e) ==> e is NotFound,
{
}

} // verus!
