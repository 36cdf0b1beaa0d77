//! What containers use.

use crate::fake::container::no_container_error;
use crate::fake::{BackendView, FakeBackend};
use crate::text::parse_number;
use crate::types::{
    BackendError, BackendErrorView, ContainerId, ContainerState, ContainerStatsRec,
    ContainerStatsRecView,
};
use crate::words::{lines_of, words_of};
use vstd::prelude::*;
use vstd::string::*;

verus! {

/// The number that a word writes, or 0.
pub open spec fn number_or_zero(s: Seq<char>) -> nat {
    match crate::text::parse_unsigned(s, u64::MAX as nat) {
        Some(n) => n,
        None => 0,
    }
}

fn number(s: &str) -> (r: u64)
    ensures
        r == number_or_zero(s@),
{
    match parse_number(s, u64::MAX) {
        Some(n) => n,
        None => 0,
    }
}

/// How long a clock tick is, or 0 if there is no telling.
pub open spec fn nanos_per_tick(clk_tck: u64) -> nat {
    if clk_tck == 0 {
        0
    } else {
        1_000_000_000nat / clk_tck as nat
    }
}

/// The clock ticks that a process has spent computing, for itself and in the kernel, from its `stat`
/// file: the 14th and the 15th field together.
pub open spec fn cpu_ticks(stat: Seq<char>) -> nat {
    let fields = crate::words::words(stat);
    if fields.len() > 14 {
        number_or_zero(fields[13]) + number_or_zero(fields[14])
    } else {
        0
    }
}

/// The time a process has spent computing.
pub open spec fn cpu_nanos(stat: Seq<char>, clk_tck: u64) -> nat {
    cpu_ticks(stat) * nanos_per_tick(clk_tck)
}

/// Whether the line tells the resident memory.
pub open spec fn is_rss_line(line: Seq<char>) -> bool {
    "VmRSS:"@.is_prefix_of(line)
}

/// The resident memory that the first such line tells, in kilobytes.
pub open spec fn rss_kilobytes(lines: Seq<Seq<char>>) -> nat
    decreases lines.len(),
{
    if lines.len() == 0 {
        0
    } else if is_rss_line(lines[0]) {
        let parts = crate::words::words(lines[0]);
        if parts.len() >= 2 {
            number_or_zero(parts[1])
        } else {
            0
        }
    } else {
        rss_kilobytes(lines.drop_first())
    }
}

/// The memory that a process has resident, from its `status` file.
pub open spec fn memory_bytes(status: Seq<char>) -> nat {
    rss_kilobytes(crate::words::lines(status)) * 1024
}

fn starts_rss_line(line: &str) -> (r: bool)
    ensures
        r == is_rss_line(line@),
{
    proof {
        reveal_strlit("VmRSS:");
    }
    let n = line.unicode_len();
    if n < 6 {
        return false;
    }
    let r = line.get_char(0) == 'V' && line.get_char(1) == 'm' && line.get_char(2) == 'R'
        && line.get_char(3) == 'S' && line.get_char(4) == 'S' && line.get_char(5) == ':';
    proof {
        let head = line@.subrange(0, 6);
        if r {
            assert(head =~= "VmRSS:"@);
        } else if head == "VmRSS:"@ {
            assert(head[0] == 'V' && head[1] == 'm' && head[2] == 'R' && head[3] == 'S' && head[4]
                == 'S' && head[5] == ':');
        }
    }
    r
}

fn rss(status: &str) -> (r: u64)
    ensures
        r == rss_kilobytes(crate::words::lines(status@)),
{
    let lines = lines_of(status);
    let ghost all = lines.deep_view();
    let mut i: usize = 0;
    assert(all.skip(0) =~= all);
    while i < lines.len()
        invariant
            i <= lines@.len(),
            all == lines.deep_view(),
            all == crate::words::lines(status@),
            rss_kilobytes(all) == rss_kilobytes(all.skip(i as int)),
        decreases lines@.len() - i,
    {
        let line = lines[i].as_str();
        assert(all.skip(i as int)[0] == line@);
        assert(all.skip(i as int).drop_first() =~= all.skip(i + 1));
        if starts_rss_line(line) {
            let parts = words_of(line);
            assert(parts.deep_view().len() == parts@.len());
            if parts.len() >= 2 {
                assert(parts.deep_view()[1] == parts@[1]@);
                return number(parts[1].as_str());
            }
            return 0;
        }
        i = i + 1;
    }
    assert(all.skip(i as int) =~= Seq::empty());
    0
}

/// The text of a file that may not have been readable.
pub open spec fn text_or_empty(file: Option<&str>) -> Seq<char> {
    match file {
        Some(s) => s@,
        None => Seq::empty(),
    }
}

/// Whether a `u64` can hold what a process uses, at every step of the reckoning.
pub open spec fn stats_fit(stat: Seq<char>, status: Seq<char>, clk_tck: u64) -> bool {
    &&& cpu_ticks(stat) <= u64::MAX
    &&& cpu_nanos(stat, clk_tck) <= u64::MAX
    &&& memory_bytes(status) <= u64::MAX
}

/// What a process uses, computing time and memory, from its `stat` and `status` files where they
/// could be read; nothing if a `u64` cannot hold it.
pub fn proc_stats(stat: Option<&str>, status: Option<&str>, clk_tck: u64) -> (r: Option<(u64, u64)>)
    ensures
        match r {
            Some((cpu, mem)) => {
                &&& stats_fit(text_or_empty(stat), text_or_empty(status), clk_tck)
                &&& cpu == cpu_nanos(text_or_empty(stat), clk_tck)
                &&& mem == memory_bytes(text_or_empty(status))
            },
            None => !stats_fit(text_or_empty(stat), text_or_empty(status), clk_tck),
        },
{
    let per_tick: u64 = if clk_tck == 0 {
        0
    } else {
        1_000_000_000 / clk_tck
    };
    let mut cpu: u64 = 0;
    if let Some(stat) = stat {
        let fields = words_of(stat);
        assert(fields.deep_view().len() == fields@.len());
        if fields.len() > 14 {
            assert(fields.deep_view()[13] == fields@[13]@);
            assert(fields.deep_view()[14] == fields@[14]@);
            let utime = number(fields[13].as_str());
            let stime = number(fields[14].as_str());
            let ticks = match utime.checked_add(stime) {
                Some(t) => t,
                None => {
                    return None;
                },
            };
            cpu = match ticks.checked_mul(per_tick) {
                Some(c) => c,
                None => {
                    return None;
                },
            };
        }
    } else {
        assert(crate::words::words(text_or_empty(stat)).len() == 0);
    }
    let mut mem: u64 = 0;
    if let Some(status) = status {
        let kilobytes = rss(status);
        mem = match kilobytes.checked_mul(1024) {
            Some(m) => m,
            None => {
                return None;
            },
        };
    } else {
        assert(crate::words::lines(text_or_empty(status)).len() == 0);
    }
    Some((cpu, mem))
}

/// What a process uses, computing time and memory, from its `stat` and `status` files where they
/// could be read.
pub fn read_proc_stats(stat: Option<&str>, status: Option<&str>, clk_tck: u64) -> (r: (u64, u64))
    requires
        stats_fit(text_or_empty(stat), text_or_empty(status), clk_tck),
    ensures
        r.0 == cpu_nanos(text_or_empty(stat), clk_tck),
        r.1 == memory_bytes(text_or_empty(status)),
{
    match proc_stats(stat, status, clk_tck) {
        Some(r) => r,
        None => (0, 0),
    }
}

/// What is seen of a container's process at some moment.
#[derive(Clone, Copy, Debug, PartialEq, Eq, Structural)]
pub struct Sample {
    pub now_nanos: i64,
    pub cpu_nanos: u64,
    pub memory_bytes: u64,
}

/// What is reported of a container: what was seen of its process, or nothing used if it has none.
pub open spec fn stats_of(b: BackendView, id: Seq<char>, sample: Sample) -> ContainerStatsRecView {
    let has_process = b.is_running(id) && b.containers[id].pid != 0;
    ContainerStatsRecView {
        id,
        timestamp_nanos: sample.now_nanos,
        cpu_usage_core_nanos: if has_process {
            sample.cpu_nanos
        } else {
            0
        },
        memory_working_set_bytes: if has_process {
            sample.memory_bytes
        } else {
            0
        },
    }
}

/// What is reported of the containers, or of which one there is nothing to report.
pub open spec fn all_stats_of(b: BackendView, ids: Seq<Seq<char>>, samples: Seq<Sample>) -> Result<
    Seq<ContainerStatsRecView>,
    BackendErrorView,
>
    decreases ids.len(),
{
    if ids.len() == 0 {
        Ok(Seq::empty())
    } else {
        match all_stats_of(b, ids.drop_last(), samples.drop_last()) {
            Err(e) => Err(e),
            Ok(before) => if b.containers.dom().contains(ids.last()) {
                Ok(before.push(stats_of(b, ids.last(), samples.last())))
            } else {
                Err(crate::fake::container::no_container(ids.last()))
            },
        }
    }
}

/// The process to look at for a container that is known, if there is one.
pub open spec fn process_of(b: BackendView, id: Seq<char>) -> Option<u32> {
    if b.is_running(id) && b.containers[id].pid != 0 {
        Some(b.containers[id].pid)
    } else {
        None
    }
}

impl FakeBackend {
    /// The process to look at for a container, if there is one.
    pub fn stats_pid(&self, id: &ContainerId) -> (r: Result<Option<u32>, BackendError>)
        ensures
            match r {
                Ok(pid) => self@.containers.dom().contains(id@) && pid == process_of(self@, id@),
                Err(e) => !self@.containers.dom().contains(id@) && e@
                    == crate::fake::container::no_container(id@),
            },
    {
        match self.containers.get(id.0.as_str()) {
            None => Err(no_container_error(id)),
            Some(rec) => {
                if rec.state != ContainerState::Running || rec.pid == 0 {
                    Ok(None)
                } else {
                    Ok(Some(rec.pid))
                }
            },
        }
    }

    /// Reports what a container uses, from what was seen of its process.
    pub fn container_stats(&self, id: &ContainerId, sample: Sample) -> (r: Result<
        ContainerStatsRec,
        BackendError,
    >)
        ensures
            match r {
                Ok(s) => self@.containers.dom().contains(id@) && s@ == stats_of(self@, id@, sample),
                Err(e) => !self@.containers.dom().contains(id@) && e@
                    == crate::fake::container::no_container(id@),
            },
    {
        match self.stats_pid(id) {
            Err(e) => Err(e),
            Ok(None) => Ok(
                ContainerStatsRec {
                    id: id.clone(),
                    timestamp_nanos: sample.now_nanos,
                    cpu_usage_core_nanos: 0,
                    memory_working_set_bytes: 0,
                },
            ),
            Ok(Some(_)) => Ok(
                ContainerStatsRec {
                    id: id.clone(),
                    timestamp_nanos: sample.now_nanos,
                    cpu_usage_core_nanos: sample.cpu_nanos,
                    memory_working_set_bytes: sample.memory_bytes,
                },
            ),
        }
    }

    /// Reports what the containers use that [`FakeBackend::container_ids`] picked, each from what
    /// was seen of its process.
    pub fn list_container_stats(&self, ids: &Vec<ContainerId>, samples: &Vec<Sample>) -> (r: Result<
        Vec<ContainerStatsRec>,
        BackendError,
    >)
        requires
            ids@.len() == samples@.len(),
        ensures
            match r {
                Ok(v) => all_stats_of(self@, crate::fake::container::names(ids@), samples@)
                    == Ok::<Seq<ContainerStatsRecView>, BackendErrorView>(v.deep_view()),
                Err(e) => all_stats_of(self@, crate::fake::container::names(ids@), samples@)
                    == Err::<Seq<ContainerStatsRecView>, BackendErrorView>(e@),
            },
    {
        let ghost all = crate::fake::container::names(ids@);
        let mut out: Vec<ContainerStatsRec> = Vec::new();
        let mut i: usize = 0;
        assert(out.deep_view() =~= Seq::empty());
        while i < ids.len()
            invariant
                i <= ids@.len(),
                ids@.len() == samples@.len(),
                all == crate::fake::container::names(ids@),
                all_stats_of(self@, all.take(i as int), samples@.take(i as int)) == Ok::<
                    Seq<ContainerStatsRecView>,
                    BackendErrorView,
                >(out.deep_view()),
            decreases ids@.len() - i,
        {
            proof {
                assert(all.take(i + 1).drop_last() =~= all.take(i as int));
                assert(samples@.take(i + 1).drop_last() =~= samples@.take(i as int));
            }
            match self.container_stats(&ids[i], samples[i]) {
                Ok(s) => {
                    let ghost before = out.deep_view();
                    out.push(s);
                    assert(out.deep_view() =~= before.push(s@));
                },
                Err(e) => {
                    proof {
                        lemma_first_error(self@, all, samples@, i + 1);
                        assert(all.take(all.len() as int) =~= all);
                        assert(samples@.take(all.len() as int) =~= samples@);
                    }
                    return Err(e);
                },
            }
            i = i + 1;
        }
        assert(all.take(i as int) =~= all);
        assert(samples@.take(i as int) =~= samples@);
        Ok(out)
    }
}

/// The first error is the outcome.
proof fn lemma_first_error(b: BackendView, ids: Seq<Seq<char>>, samples: Seq<Sample>, n: int)
    requires
        ids.len() == samples.len(),
        0 <= n <= ids.len(),
        all_stats_of(b, ids.take(n), samples.take(n)) is Err,
    ensures
        all_stats_of(b, ids.take(ids.len() as int), samples.take(ids.len() as int)) == all_stats_of(
            b,
            ids.take(n),
            samples.take(n),
        ),
    decreases ids.len() - n,
{
    if n < ids.len() {
        assert(ids.take(n + 1).drop_last() =~= ids.take(n));
        assert(samples.take(n + 1).drop_last() =~= samples.take(n));
        lemma_first_error(b, ids, samples, n + 1);
    }
}

/// The time that a process used is that of its own code and that of the system on its behalf, the
/// fourteenth and the fifteenth field of its `stat` file, in ticks of which there are `clk_tck` in a
/// second. Where the file is shorter, or is missing, there is none.
pub proof fn law_processor_time_is_user_and_system(
    stat: Seq<char>,
    user: nat,
    system: nat,
    clk_tck: u64,
)
    requires
        crate::words::words(stat).len() >= 15,
        crate::words::words(stat)[13] == crate::text::dec(user),
        crate::words::words(stat)[14] == crate::text::dec(system),
        user <= u64::MAX,
        system <= u64::MAX,
        clk_tck > 0,
        1_000_000_000int % clk_tck as int == 0,
    ensures
        cpu_nanos(stat, clk_tck) * clk_tck == (user + system) * 1_000_000_000,
        cpu_nanos(Seq::empty(), clk_tck) == 0,
{
    crate::text::law_decimal_reads_back(user, u64::MAX as nat);
    crate::text::law_decimal_reads_back(system, u64::MAX as nat);
    let ticks = user + system;
    let tick = 1_000_000_000nat / clk_tck as nat;
    assert(tick * clk_tck == 1_000_000_000) by (nonlinear_arith)
        requires
            clk_tck > 0,
            1_000_000_000int % clk_tck as int == 0,
            tick == 1_000_000_000nat / clk_tck as nat,
    ;
    assert((ticks * tick) * clk_tck == ticks * (tick * clk_tck)) by (nonlinear_arith);
    assert(0 * nanos_per_tick(clk_tck) == 0) by (nonlinear_arith);
}

/// A file that is too short tells of no time at all, and so does a clock without ticks.
pub proof fn law_short_file_tells_of_no_time(stat: Seq<char>, clk_tck: u64)
    ensures
        crate::words::words(stat).len() < 15 ==> cpu_nanos(stat, clk_tck) == 0,
        cpu_nanos(stat, 0) == 0,
{
    assert(0 * nanos_per_tick(clk_tck) == 0) by (nonlinear_arith);
    assert(cpu_ticks(stat) * 0 == 0) by (nonlinear_arith);
}

/// The memory that a process uses is on the first line that begins so, in kilobytes; without such a
/// line it is nothing.
pub proof fn law_memory_is_on_its_line(status: Seq<char>, at: int, kilobytes: nat, unit: Seq<char>)
    requires
        kilobytes <= u64::MAX,
        0 <= at < crate::words::lines(status).len(),
        crate::words::lines(status)[at] == "VmRSS:"@ + seq!['\t'] + crate::text::dec(kilobytes)
            + seq![' '] + unit,
        forall|i: int|
            0 <= i < at ==> !"VmRSS:"@.is_prefix_of(#[trigger] crate::words::lines(status)[i]),
    ensures
        memory_bytes(status) == kilobytes * 1024,
{
    let all = crate::words::lines(status);
    let line = all[at];
    let number = crate::text::dec(kilobytes);
    let name = "VmRSS:"@;
    reveal_strlit("VmRSS:");
    assert(name.is_prefix_of(line)) by {
        assert(name =~= line.subrange(0, name.len() as int));
    }
    lemma_number_word(name, number, kilobytes, unit);
    assert(line =~= name.push('\t') + (number.push(' ') + unit));
    crate::words::law_space_parts_words(name, '\t', number.push(' ') + unit);
    lemma_first_rss_line(all, at);
    crate::text::law_decimal_reads_back(kilobytes, u64::MAX as nat);
}

proof fn lemma_number_word(name: Seq<char>, number: Seq<char>, n: nat, unit: Seq<char>)
    requires
        name == "VmRSS:"@,
        number == crate::text::dec(n),
    ensures
        crate::words::words(name) == seq![name],
        crate::words::words(number.push(' ') + unit).len() >= 1,
        crate::words::words(number.push(' ') + unit)[0] == number,
{
    reveal_strlit("VmRSS:");
    crate::words::law_no_space_is_one_word(name);
    crate::text::lemma_dec_value(n);
    assert forall|i: int| 0 <= i < number.len() implies !crate::words::is_space(
        #[trigger] number[i],
    ) by {
        assert(crate::text::is_digit(number[i]));
    }
    crate::words::law_no_space_is_one_word(number);
    crate::words::law_space_parts_words(number, ' ', unit);
}

proof fn lemma_first_rss_line(all: Seq<Seq<char>>, at: int)
    requires
        0 <= at < all.len(),
        is_rss_line(all[at]),
        forall|i: int| 0 <= i < at ==> !is_rss_line(#[trigger] all[i]),
    ensures
        rss_kilobytes(all) == (if crate::words::words(all[at]).len() >= 2 {
            number_or_zero(crate::words::words(all[at])[1])
        } else {
            0
        }),
    decreases at,
{
    if at > 0 {
        assert(!is_rss_line(all[0]));
        let rest = all.drop_first();
        assert forall|i: int| 0 <= i < at - 1 implies !is_rss_line(#[trigger] rest[i]) by {
            assert(rest[i] == all[i + 1]);
        }
        lemma_first_rss_line(rest, at - 1);
    }
}

/// Where no line tells of memory, there is none.
pub proof fn law_no_line_tells_of_no_memory(status: Seq<char>)
    requires
        forall|i: int|
            0 <= i < crate::words::lines(status).len() ==> !"VmRSS:"@.is_prefix_of(
                #[trigger] crate::words::lines(status)[i],
            ),
    ensures
        memory_bytes(status) == 0,
{
    lemma_no_rss_line(crate::words::lines(status));
}

proof fn lemma_no_rss_line(all: Seq<Seq<char>>)
    requires
        forall|i: int| 0 <= i < all.len() ==> !is_rss_line(#[trigger] all[i]),
    ensures
        rss_kilobytes(all) == 0,
    decreases all.len(),
{
    if all.len() > 0 {
        assert(!is_rss_line(all[0]));
        let rest = all.drop_first();
        assert forall|i: int| 0 <= i < rest.len() implies !is_rss_line(#[trigger] rest[i]) by {
            assert(rest[i] == all[i + 1]);
        }
        lemma_no_rss_line(rest);
    }
}

/// A container that runs uses what was sampled of its process; one without a process uses nothing.
/// Either is told under the container's name and at the time of the sample.
pub proof fn law_use_is_that_of_the_process(b: BackendView, id: Seq<char>, sample: Sample)
    ensures
        ({
            let s = stats_of(b, id, sample);
            &&& s.id == id
            &&& s.timestamp_nanos == sample.now_nanos
            &&& b.is_running(id) && b.containers[id].pid > 0 ==> s.cpu_usage_core_nanos
                == sample.cpu_nanos && s.memory_working_set_bytes == sample.memory_bytes
            &&& !b.is_running(id) || b.containers[id].pid == 0 ==> s.cpu_usage_core_nanos == 0
                && s.memory_working_set_bytes == 0
        }),
{
}

/// The use of several containers is told of all of them and in their order, each with its own sample.
/// It fails if one of them is unknown, and only then; the error names the first of those.
pub proof fn law_uses_are_told_in_order(
    b: BackendView,
    ids: Seq<Seq<char>>,
    samples: Seq<Sample>,
)
    requires
        ids.len() == samples.len(),
    ensures
        ({
            let all = all_stats_of(b, ids, samples);
            &&& all is Ok <==> (forall|i: int|
                0 <= i < ids.len() ==> b.containers.dom().contains(#[trigger] ids[i]))
            &&& all matches Ok(v) ==> v.len() == ids.len() && forall|i: int|
                0 <= i < ids.len() ==> (#[trigger] v[i]).id == ids[i] && v[i].timestamp_nanos
                    == samples[i].now_nanos && (b.is_running(ids[i]) && b.containers[ids[i]].pid > 0
                    ==> v[i].cpu_usage_core_nanos == samples[i].cpu_nanos
                    && v[i].memory_working_set_bytes == samples[i].memory_bytes)
            &&& all matches Err(e) ==> exists|i: int|
                0 <= i < ids.len() && e == BackendErrorView::NotFound(
                    "container "@ + #[trigger] ids[i],
                ) && !b.containers.dom().contains(ids[i]) && forall|j: int|
                    0 <= j < i ==> b.containers.dom().contains(#[trigger] ids[j])
        }),
    decreases ids.len(),
{
    if ids.len() > 0 {
        let front = ids.drop_last();
        law_uses_are_told_in_order(b, front, samples.drop_last());
        match all_stats_of(b, front, samples.drop_last()) {
            Err(e) => {
                let i = choose|i: int|
                    0 <= i < front.len() && e == BackendErrorView::NotFound(
                        "container "@ + #[trigger] front[i],
                    ) && !b.containers.dom().contains(front[i]) && forall|j: int|
                        0 <= j < i ==> b.containers.dom().contains(#[trigger] front[j]);
                assert(front[i] == ids[i]);
                assert forall|j: int| 0 <= j < i implies b.containers.dom().contains(
                    #[trigger] ids[j],
                ) by {
                    assert(front[j] == ids[j]);
                }
            },
            Ok(v) => {
                assert forall|j: int| 0 <= j < ids.len() - 1 implies b.containers.dom().contains(
                    #[trigger] ids[j],
                ) by {
                    assert(front[j] == ids[j]);
                }
                if b.containers.dom().contains(ids.last()) {
                    let w = v.push(stats_of(b, ids.last(), samples.last()));
                    assert forall|i: int| 0 <= i < ids.len() implies (#[trigger] w[i]).id == ids[i]
                        && w[i].timestamp_nanos == samples[i].now_nanos && (b.is_running(ids[i])
                        && b.containers[ids[i]].pid > 0 ==> w[i].cpu_usage_core_nanos
                        == samples[i].cpu_nanos && w[i].memory_working_set_bytes
                        == samples[i].memory_bytes) by {
                        if i < v.len() {
                            assert(w[i] == v[i]);
                            assert(front[i] == ids[i]);
                        }
                    }
                } else {
                    assert(ids[ids.len() - 1] == ids.last());
                }
            },
        }
    }
}

/// The process that is looked at is that of the container, while it runs; what is seen of it counts
/// exactly where there is one.
pub proof fn law_process_looked_at_is_the_containers(b: BackendView, id: Seq<char>, sample: Sample)
    ensures
        process_of(b, id) matches Some(pid) ==> b.containers.dom().contains(id)
            && b.containers[id].state == ContainerState::Running && b.containers[id].pid == pid
            && pid > 0,
        process_of(b, id) is Some ==> stats_of(b, id, sample).cpu_usage_core_nanos
            == sample.cpu_nanos && stats_of(b, id, sample).memory_working_set_bytes
            == sample.memory_bytes,
        process_of(b, id) is None ==> stats_of(b, id, sample).cpu_usage_core_nanos == 0 && stats_of(
            b,
            id,
            sample,
        ).memory_working_set_bytes == 0,
        b.is_running(id) && b.containers[id].pid > 0 ==> process_of(b, id) is Some,
{
}

} // verus!
