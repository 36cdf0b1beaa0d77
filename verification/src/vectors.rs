//! Conformance vectors: scripts of backend calls with what each has to come to.

use crate::text::{parse_number, push_decimal, same_text};
use crate::types::{BackendError, BackendErrorView};
use vstd::prelude::*;
use vstd::string::*;

verus! {

/// What the vectors came to.
#[derive(Debug, Default, PartialEq, Eq)]
pub struct VectorReport {
    /// How many passed.
    pub passed: usize,
    /// What went wrong in each that did not.
    pub failed: Vec<String>,
}

/// One step of a vector.
#[derive(Debug)]
pub enum Step {
    /// Drop the backend and open it again.
    Reopen,
    /// Call the backend. An argument `$N` stands for the result of step `N`. The call has to
    /// succeed, or to fail with the error that is named.
    Call { op: String, args: Vec<String>, expect_err: Option<String> },
}

/// A vector.
#[derive(Debug)]
pub struct Vector {
    pub name: String,
    pub steps: Vec<Step>,
}

/// How an error is named in a vector.
pub open spec fn variant_text(e: BackendErrorView) -> Seq<char> {
    match e {
        BackendErrorView::NotFound(_) => "NotFound"@,
        BackendErrorView::FailedPrecondition(_) => "FailedPrecondition"@,
        BackendErrorView::InvalidArgument(_) => "InvalidArgument"@,
        BackendErrorView::InUse(_) => "InUse"@,
        BackendErrorView::Internal(_) => "Internal"@,
        BackendErrorView::Io(_) => "Io"@,
    }
}

/// How an error is named in a vector.
pub fn variant_name(e: &BackendError) -> (r: &'static str)
    ensures
        r@ == variant_text(e@),
{
    match e {
        BackendError::NotFound(_) => "NotFound",
        BackendError::FailedPrecondition(_) => "FailedPrecondition",
        BackendError::InvalidArgument(_) => "InvalidArgument",
        BackendError::InUse(_) => "InUse",
        BackendError::Internal(_) => "Internal",
        BackendError::Io(_) => "Io",
    }
}

/// What an argument stands for: the result of an earlier step, if it refers to one and that has a
/// result; itself, if it does not refer to a step.
pub open spec fn resolved(arg: Seq<char>, results: Seq<Option<String>>) -> Option<Seq<char>> {
    if arg.len() > 0 && arg[0] == '$' {
        match crate::text::parse_unsigned(arg.skip(1), u64::MAX as nat) {
            Some(n) => if n < results.len() {
                match results[n as int] {
                    Some(t) => Some(t@),
                    None => None,
                }
            } else {
                None
            },
            None => None,
        }
    } else {
        Some(arg)
    }
}

/// What an argument stands for.
pub fn resolve(arg: &str, results: &Vec<Option<String>>) -> (r: Option<String>)
    ensures
        r.deep_view() == resolved(arg@, results@),
{
    let len = arg.unicode_len();
    if len == 0 || arg.get_char(0) != '$' {
        return Some(arg.to_owned());
    }
    let rest = arg.substring_char(1, len);
    assert(rest@ =~= arg@.skip(1));
    match parse_number(rest, u64::MAX) {
        Some(n) => {
            if n < results.len() as u64 {
                match &results[n as usize] {
                    Some(t) => Some(t.clone()),
                    None => None,
                }
            } else {
                None
            }
        },
        None => None,
    }
}

/// What a step came to, in one word: `Ok`, or the name of the error.
pub open spec fn outcome_text(outcome: Result<Option<String>, BackendError>) -> Seq<char> {
    match outcome {
        Ok(_) => "Ok"@,
        Err(e) => variant_text(e@),
    }
}

/// What a step has to come to, in one word.
pub open spec fn expected_text(expect_err: Option<String>) -> Seq<char> {
    match expect_err {
        Some(v) => v@,
        None => "Ok"@,
    }
}

/// Whether a step came to what it had to: it succeeded, where no error is named, or else failed with
/// the error of that name.
pub open spec fn meets(
    expect_err: Option<String>,
    outcome: Result<Option<String>, BackendError>,
) -> bool {
    match (expect_err, outcome) {
        (None, Ok(_)) => true,
        (Some(v), Err(e)) => v@ == variant_text(e@),
        _ => false,
    }
}

/// How a failure is told: the vector, the step, what was expected and what came.
pub open spec fn failure_text(
    name: Seq<char>,
    step: nat,
    expected: Seq<char>,
    actual: Seq<char>,
) -> Seq<char> {
    name + ": step "@ + crate::text::dec(step) + ": expected "@ + expected + ", got "@ + actual
}

fn failure(name: &str, step: usize, expected: &str, actual: &str) -> (r: String)
    ensures
        r@ == failure_text(name@, step as nat, expected@, actual@),
{
    let mut r = name.to_owned();
    r.append(": step ");
    push_decimal(&mut r, step as u128);
    r.append(": expected ");
    r.append(expected);
    r.append(", got ");
    r.append(actual);
    r
}

/// A vector being run.
#[derive(Debug)]
pub struct VectorRun {
    vector: Vector,
    at: usize,
    results: Vec<Option<String>>,
    failure: Option<String>,
}

/// Where a [`VectorRun`] stands.
pub struct RunView {
    pub vector: Vector,
    /// How many steps are done.
    pub at: int,
    /// What they gave.
    pub results: Seq<Option<String>>,
    /// What went wrong, if something did.
    pub failure: Option<Seq<char>>,
}

impl View for VectorRun {
    type V = RunView;

    closed spec fn view(&self) -> RunView {
        RunView {
            vector: self.vector,
            at: self.at as int,
            results: self.results@,
            failure: self.failure.deep_view(),
        }
    }
}

/// What is to be done next.
#[derive(Debug)]
pub enum RunAction {
    Reopen,
    Call { op: String, args: Vec<String> },
    Done,
}

/// What a [`RunAction`] asks for.
#[verifier::ext_equal]
pub enum RunActionView {
    Reopen,
    Call { op: Seq<char>, args: Seq<Seq<char>> },
    Done,
}

impl View for RunAction {
    type V = RunActionView;

    open spec fn view(&self) -> RunActionView {
        match *self {
            RunAction::Reopen => RunActionView::Reopen,
            RunAction::Call { op, args } => RunActionView::Call { op: op@, args: args.deep_view() },
            RunAction::Done => RunActionView::Done,
        }
    }
}

/// What the arguments stand for, if each stands for something; else the first that does not.
pub open spec fn all_resolved(args: Seq<Seq<char>>, results: Seq<Option<String>>) -> Result<
    Seq<Seq<char>>,
    Seq<char>,
>
    decreases args.len(),
{
    if args.len() == 0 {
        Ok(Seq::empty())
    } else {
        match all_resolved(args.drop_last(), results) {
            Err(a) => Err(a),
            Ok(before) => match resolved(args.last(), results) {
                Some(t) => Ok(before.push(t)),
                None => Err(args.last()),
            },
        }
    }
}

proof fn lemma_first_unresolved(args: Seq<Seq<char>>, results: Seq<Option<String>>, n: int)
    requires
        0 <= n <= args.len(),
        all_resolved(args.take(n), results) is Err,
    ensures
        all_resolved(args, results) == all_resolved(args.take(n), results),
    decreases args.len() - n,
{
    if n < args.len() {
        assert(args.take(n + 1).drop_last() =~= args.take(n));
        lemma_first_unresolved(args, results, n + 1);
    } else {
        assert(args.take(n) =~= args);
    }
}

fn resolve_all(args: &Vec<String>, results: &Vec<Option<String>>) -> (r: Result<
    Vec<String>,
    String,
>)
    ensures
        match r {
            Ok(v) => all_resolved(args.deep_view(), results@) == Ok::<Seq<Seq<char>>, Seq<char>>(
                v.deep_view(),
            ),
            Err(a) => all_resolved(args.deep_view(), results@) == Err::<Seq<Seq<char>>, Seq<char>>(
                a@,
            ),
        },
{
    let ghost all = args.deep_view();
    let mut out: Vec<String> = Vec::new();
    let mut i: usize = 0;
    assert(out.deep_view() =~= Seq::empty());
    while i < args.len()
        invariant
            i <= args@.len(),
            all == args.deep_view(),
            all_resolved(all.take(i as int), results@) == Ok::<Seq<Seq<char>>, Seq<char>>(
                out.deep_view(),
            ),
        decreases args@.len() - i,
    {
        proof {
            assert(all.take(i + 1).drop_last() =~= all.take(i as int));
            assert(all.take(i + 1).last() == args@[i as int]@);
        }
        match resolve(args[i].as_str(), results) {
            Some(t) => {
                let ghost before = out.deep_view();
                out.push(t);
                assert(out.deep_view() =~= before.push(t@));
            },
            None => {
                proof {
                    lemma_first_unresolved(all, results@, i + 1);
                }
                return Err(args[i].clone());
            },
        }
        i = i + 1;
    }
    assert(all.take(i as int) =~= all);
    Ok(out)
}

impl RunView {
    /// Before the first step.
    pub open spec fn begun(vector: Vector) -> RunView {
        RunView { vector, at: 0, results: Seq::empty(), failure: None }
    }

    /// There is one result for each step that is done.
    pub open spec fn wf(self) -> bool {
        0 <= self.at <= self.vector.steps@.len() && self.results.len() == self.at
    }

    /// Whether there is nothing more to do.
    pub open spec fn is_done(self) -> bool {
        self.failure is Some || self.at >= self.vector.steps@.len()
    }

    /// What is to be done next. An argument that refers to no result fails the vector.
    pub open spec fn prepared(self) -> (RunView, RunActionView) {
        if self.is_done() {
            (self, RunActionView::Done)
        } else {
            match self.vector.steps@[self.at] {
                Step::Reopen => (self, RunActionView::Reopen),
                Step::Call { op, args, expect_err: _ } => match all_resolved(
                    args.deep_view(),
                    self.results,
                ) {
                    Ok(args) => (self, RunActionView::Call { op: op@, args }),
                    Err(a) => (
                        RunView {
                            failure: Some(
                                failure_text(
                                    self.vector.name@,
                                    self.at as nat,
                                    "the result of a step"@,
                                    a,
                                ),
                            ),
                            ..self
                        },
                        RunActionView::Done,
                    ),
                },
            }
        }
    }

    /// What the step at hand has to come to.
    pub open spec fn expectation(self) -> Option<String> {
        match self.vector.steps@[self.at] {
            Step::Reopen => None,
            Step::Call { op: _, args: _, expect_err } => expect_err,
        }
    }

    /// After the step at hand came to the outcome.
    pub open spec fn judged(self, outcome: Result<Option<String>, BackendError>) -> RunView {
        RunView {
            at: self.at + 1,
            results: self.results.push(
                match outcome {
                    Ok(t) => t,
                    Err(_) => None,
                },
            ),
            failure: if meets(self.expectation(), outcome) {
                None
            } else {
                Some(
                    failure_text(
                        self.vector.name@,
                        self.at as nat,
                        expected_text(self.expectation()),
                        outcome_text(outcome),
                    ),
                )
            },
            ..self
        }
    }
}

impl VectorRun {
    /// Begins to run the vector.
    pub fn begin(vector: Vector) -> (r: VectorRun)
        ensures
            r@.wf(),
            r@ == RunView::begun(vector),
    {
        let r = VectorRun { vector, at: 0, results: Vec::new(), failure: None };
        assert(r@.results =~= Seq::empty());
        r
    }

    /// Says what is to be done next.
    pub fn prepare(&mut self) -> (r: RunAction)
        requires
            old(self)@.wf(),
        ensures
            final(self)@.wf(),
            (final(self)@, r@) == old(self)@.prepared(),
    {
        if self.failure.is_some() || self.at >= self.vector.steps.len() {
            return RunAction::Done;
        }
        match &self.vector.steps[self.at] {
            Step::Reopen => RunAction::Reopen,
            Step::Call { op, args, expect_err: _ } => match resolve_all(args, &self.results) {
                Ok(args) => RunAction::Call { op: op.clone(), args },
                Err(a) => {
                    let f = failure(
                        self.vector.name.as_str(),
                        self.at,
                        "the result of a step",
                        a.as_str(),
                    );
                    self.failure = Some(f);
                    RunAction::Done
                },
            },
        }
    }

    /// Judges what the step at hand came to. For a call that gives a text, such as a name, that is
    /// its result.
    pub fn judge(&mut self, outcome: Result<Option<String>, BackendError>)
        requires
            old(self)@.wf(),
            !old(self)@.is_done(),
        ensures
            final(self)@.wf(),
            final(self)@ == old(self)@.judged(outcome),
    {
        assert(self.at < self.vector.steps.len());
        let actual = match &outcome {
            Ok(_) => "Ok",
            Err(e) => variant_name(e),
        };
        let expected = match &self.vector.steps[self.at] {
            Step::Reopen => None,
            Step::Call { op: _, args: _, expect_err } => match expect_err {
                Some(v) => Some(v.as_str()),
                None => None,
            },
        };
        let met = match (expected, &outcome) {
            (None, Ok(_)) => true,
            (Some(v), Err(_)) => same_text(v, actual),
            _ => false,
        };
        if met {
            self.failure = None;
        } else {
            let wanted = match expected {
                Some(v) => v,
                None => "Ok",
            };
            let f = failure(self.vector.name.as_str(), self.at, wanted, actual);
            self.failure = Some(f);
        }
        let result = match outcome {
            Ok(t) => t,
            Err(_) => None,
        };
        self.results.push(result);
        self.at = self.at + 1;
    }

    /// Counts the vector in the report, once there is nothing more to do.
    pub fn count(self, report: &mut VectorReport)
        requires
            self@.is_done(),
            self@.failure is None ==> old(report).passed < usize::MAX,
        ensures
            match self@.failure {
                None => final(report).passed == old(report).passed + 1
                    && final(report).failed.deep_view() == old(report).failed.deep_view(),
                Some(f) => final(report).passed == old(report).passed
                    && final(report).failed.deep_view() == old(report).failed.deep_view().push(f),
            },
    {
        match self.failure {
            None => {
                report.passed = report.passed + 1;
            },
            Some(f) => {
                report.failed.push(f);
                assert(report.failed.deep_view() =~= old(report).failed.deep_view().push(f@));
            },
        }
    }
}

/// What a step that came to the outcome gives to later steps.
pub open spec fn result_of(outcome: Result<Option<String>, BackendError>) -> Option<String> {
    match outcome {
        Ok(t) => t,
        Err(_) => None,
    }
}

/// What the first `n` steps gave.
pub open spec fn results_of(
    outcomes: Seq<Result<Option<String>, BackendError>>,
    n: int,
) -> Seq<Option<String>> {
    outcomes.take(n).map_values(|o: Result<Option<String>, BackendError>| result_of(o))
}

/// What is wrong with step `i`, where the steps come to the outcomes: an argument of it that refers to
/// no result, or else an outcome that does not meet the expectation.
pub open spec fn step_fault(
    vector: Vector,
    outcomes: Seq<Result<Option<String>, BackendError>>,
    i: int,
) -> Option<Seq<char>> {
    let at = RunView { vector, at: i, results: results_of(outcomes, i), failure: None };
    match at.prepared().0.failure {
        Some(f) => Some(f),
        None => at.judged(outcomes[i]).failure,
    }
}

/// What is wrong with the first step, from `i` on, with which something is wrong.
pub open spec fn first_fault(
    vector: Vector,
    outcomes: Seq<Result<Option<String>, BackendError>>,
    i: int,
) -> Option<Seq<char>>
    decreases vector.steps@.len() - i,
{
    if i >= vector.steps@.len() {
        None
    } else {
        match step_fault(vector, outcomes, i) {
            Some(f) => Some(f),
            None => first_fault(vector, outcomes, i + 1),
        }
    }
}

impl RunView {
    /// The run at its end, where the steps come to the outcomes.
    pub open spec fn ran(self, outcomes: Seq<Result<Option<String>, BackendError>>) -> RunView
        decreases self.vector.steps@.len() - self.at,
    {
        let (v, action) = self.prepared();
        if action is Done {
            v
        } else {
            v.judged(outcomes[v.at]).ran(outcomes)
        }
    }
}

/// A step is in order if and only if its arguments refer to results and it comes to what it has to.
/// Otherwise what is wrong is told with the vector, the step, what was expected and what came.
pub proof fn law_step_is_judged_by_its_expectation(
    vector: Vector,
    outcomes: Seq<Result<Option<String>, BackendError>>,
    i: int,
)
    requires
        0 <= i < vector.steps@.len(),
    ensures
        match vector.steps@[i] {
            Step::Reopen => {
                &&& step_fault(vector, outcomes, i) is None <==> meets(None, outcomes[i])
                &&& !meets(None, outcomes[i]) ==> step_fault(vector, outcomes, i) == Some(
                    failure_text(
                        vector.name@,
                        i as nat,
                        expected_text(None),
                        outcome_text(outcomes[i]),
                    ),
                )
            },
            Step::Call { op: _, args, expect_err } => match all_resolved(
                args.deep_view(),
                results_of(outcomes, i),
            ) {
                Ok(_) => {
                    &&& step_fault(vector, outcomes, i) is None <==> meets(expect_err, outcomes[i])
                    &&& !meets(expect_err, outcomes[i]) ==> step_fault(vector, outcomes, i) == Some(
                        failure_text(
                            vector.name@,
                            i as nat,
                            expected_text(expect_err),
                            outcome_text(outcomes[i]),
                        ),
                    )
                },
                Err(a) => step_fault(vector, outcomes, i) == Some(
                    failure_text(vector.name@, i as nat, "the result of a step"@, a),
                ),
            },
        },
{
}

/// A vector passes if and only if every step of it is in order; otherwise its failure is that of the
/// first step that is not, and no step after that one is run.
pub proof fn law_vector_passes_if_every_step_does(
    vector: Vector,
    outcomes: Seq<Result<Option<String>, BackendError>>,
)
    requires
        outcomes.len() >= vector.steps@.len(),
    ensures
        ({
            let end = RunView::begun(vector).ran(outcomes);
            &&& end.is_done()
            &&& end.failure == first_fault(vector, outcomes, 0)
            &&& end.failure is None <==> forall|i: int|
                0 <= i < vector.steps@.len() ==> #[trigger] step_fault(vector, outcomes, i) is None
            &&& forall|i: int|
                #![trigger step_fault(vector, outcomes, i)]
                0 <= i < vector.steps@.len() && step_fault(vector, outcomes, i) is Some && (forall|
                    j: int,
                |
                    0 <= j < i ==> #[trigger] step_fault(vector, outcomes, j) is None)
                    ==> end.failure == step_fault(vector, outcomes, i)
        }),
{
    let start = RunView::begun(vector);
    assert(results_of(outcomes, 0) =~= start.results);
    lemma_ran(start, outcomes);
    lemma_first_fault(vector, outcomes, 0);
    assert forall|i: int|
        #![trigger step_fault(vector, outcomes, i)]
        0 <= i < vector.steps@.len() && step_fault(vector, outcomes, i) is Some && (forall|
            j: int,
        |
            0 <= j < i ==> #[trigger] step_fault(vector, outcomes, j) is None) implies first_fault(
        vector,
        outcomes,
        0,
    ) == step_fault(vector, outcomes, i) by {
        lemma_fault_at(vector, outcomes, 0, i);
    }
}

proof fn lemma_ran(v: RunView, outcomes: Seq<Result<Option<String>, BackendError>>)
    requires
        0 <= v.at <= v.vector.steps@.len(),
        outcomes.len() >= v.vector.steps@.len(),
        v.results == results_of(outcomes, v.at),
        v.failure is None,
    ensures
        v.ran(outcomes).is_done(),
        v.ran(outcomes).failure == first_fault(v.vector, outcomes, v.at),
    decreases v.vector.steps@.len() - v.at,
{
    if v.at < v.vector.steps@.len() {
        let (w, action) = v.prepared();
        assert(v == (RunView {
            vector: v.vector,
            at: v.at,
            results: results_of(outcomes, v.at),
            failure: None,
        }));
        if action is Done {
        } else {
            let next = w.judged(outcomes[v.at]);
            assert(next.results =~= results_of(outcomes, v.at + 1));
            if next.failure is None {
                lemma_ran(next, outcomes);
            }
        }
    }
}

proof fn lemma_first_fault(
    vector: Vector,
    outcomes: Seq<Result<Option<String>, BackendError>>,
    i: int,
)
    requires
        0 <= i <= vector.steps@.len(),
    ensures
        first_fault(vector, outcomes, i) is None <==> forall|j: int|
            i <= j < vector.steps@.len() ==> #[trigger] step_fault(vector, outcomes, j) is None,
    decreases vector.steps@.len() - i,
{
    if i < vector.steps@.len() {
        lemma_first_fault(vector, outcomes, i + 1);
        if step_fault(vector, outcomes, i) is None {
            assert forall|j: int|
                i <= j < vector.steps@.len() && (first_fault(vector, outcomes, i) is None) implies (
            #[trigger] step_fault(vector, outcomes, j)) is None by {
                if j > i {
                    assert(i + 1 <= j);
                }
            }
        }
    }
}

proof fn lemma_fault_at(
    vector: Vector,
    outcomes: Seq<Result<Option<String>, BackendError>>,
    i: int,
    n: int,
)
    requires
        0 <= i <= n < vector.steps@.len(),
        step_fault(vector, outcomes, n) is Some,
        forall|j: int| i <= j < n ==> #[trigger] step_fault(vector, outcomes, j) is None,
    ensures
        first_fault(vector, outcomes, i) == step_fault(vector, outcomes, n),
    decreases n - i,
{
    if i < n {
        assert(step_fault(vector, outcomes, i) is None);
        lemma_fault_at(vector, outcomes, i + 1, n);
    }
}

/// The report of vectors that ended with these failures: how many passed, and what went wrong in each
/// that did not, in order.
pub open spec fn tally(failures: Seq<Option<Seq<char>>>) -> (nat, Seq<Seq<char>>)
    decreases failures.len(),
{
    if failures.len() == 0 {
        (0, Seq::empty())
    } else {
        let (passed, failed) = tally(failures.drop_last());
        match failures.last() {
            None => (passed + 1, failed),
            Some(f) => (passed, failed.push(f)),
        }
    }
}

/// Every vector is counted once, as passed or as failed; a failure is told if and only if some vector
/// failed with it.
pub proof fn law_every_vector_is_counted(failures: Seq<Option<Seq<char>>>, f: Seq<char>)
    ensures
        tally(failures).0 + tally(failures).1.len() == failures.len(),
        tally(failures).1.contains(f) <==> failures.contains(Some(f)),
    decreases failures.len(),
{
    if failures.len() > 0 {
        let r = failures.drop_last();
        law_every_vector_is_counted(r, f);
        let told = tally(r).1;
        assert(failures =~= r.push(failures.last()));
        assert(failures[failures.len() - 1] == failures.last());
        if r.contains(Some(f)) {
            assert(failures[r.index_of(Some(f))] == Some(f));
        }
        if failures.contains(Some(f)) && failures.last() != Some(f) {
            assert(r[failures.index_of(Some(f))] == Some(f));
        }
        if let Some(g) = failures.last() {
            assert(told.push(g)[told.len() as int] == g);
            if told.contains(f) {
                assert(told.push(g)[told.index_of(f)] == f);
            }
            if told.push(g).contains(f) && f != g {
                assert(told[told.push(g).index_of(f)] == f);
            }
        }
    }
}

/// An error is known by the name of its kind, and by no other.
pub proof fn law_errors_are_known_by_kind(e: BackendErrorView)
    ensures
        variant_text(e) == "NotFound"@ <==> e is NotFound,
        variant_text(e) == "FailedPrecondition"@ <==> e is FailedPrecondition,
        variant_text(e) == "InvalidArgument"@ <==> e is InvalidArgument,
        variant_text(e) == "InUse"@ <==> e is InUse,
        variant_text(e) == "Internal"@ <==> e is Internal,
        variant_text(e) == "Io"@ <==> e is Io,
{
    reveal_strlit("NotFound");
    reveal_strlit("FailedPrecondition");
    reveal_strlit("InvalidArgument");
    reveal_strlit("InUse");
    reveal_strlit("Internal");
    reveal_strlit("Io");
    assert("NotFound"@.len() == 8 && "Internal"@.len() == 8);
    assert("NotFound"@[0] == 'N' && "Internal"@[0] == 'I');
    assert("FailedPrecondition"@.len() == 18 && "InvalidArgument"@.len() == 15 && "InUse"@.len()
        == 5 && "Io"@.len() == 2);
}

/// A step that expects no error is met by success, and by nothing else; one that expects an error is
/// met by an error of that kind, whatever it says, and by nothing else.
pub proof fn law_expectations_are_met_by_kind(
    expected: String,
    done: Option<String>,
    error: BackendError,
)
    ensures
        meets(None, Ok(done)),
        !meets(None, Err(error)),
        !meets(Some(expected), Ok(done)),
        expected@ == "NotFound"@ ==> (meets(Some(expected), Err(error)) <==> error is NotFound),
        expected@ == "FailedPrecondition"@ ==> (meets(Some(expected), Err(error)) <==> error
            is FailedPrecondition),
        expected@ == "InvalidArgument"@ ==> (meets(Some(expected), Err(error)) <==> error
            is InvalidArgument),
        expected@ == "InUse"@ ==> (meets(Some(expected), Err(error)) <==> error is InUse),
        expected@ == "Internal"@ ==> (meets(Some(expected), Err(error)) <==> error is Internal),
        expected@ == "Io"@ ==> (meets(Some(expected), Err(error)) <==> error is Io),
{
    law_errors_are_known_by_kind(error@);
}

/// A dollar sign and a number stand for what the step of that number came to; any other text stands
/// for itself.
pub proof fn law_dollar_stands_for_a_result(
    text: Seq<char>,
    n: nat,
    results: Seq<Option<String>>,
)
    requires
        n <= u64::MAX,
    ensures
        text.len() == 0 || text[0] != '$' ==> resolved(text, results) == Some(text),
        ({
            let named = resolved(seq!['$'] + crate::text::dec(n), results);
            &&& n < results.len() && results[n as int] is Some ==> named == Some(
                results[n as int]->0@,
            )
            &&& n >= results.len() || results[n as int] is None ==> named is None
        }),
{
    crate::text::law_decimal_reads_back(n, u64::MAX as nat);
    assert((seq!['$'] + crate::text::dec(n)).skip(1) =~= crate::text::dec(n));
}

/// The arguments of a step stand each for itself, in their order; if one stands for nothing, the first
/// that does is at fault.
pub proof fn law_arguments_stand_each_for_itself(
    args: Seq<Seq<char>>,
    results: Seq<Option<String>>,
)
    ensures
        match all_resolved(args, results) {
            Ok(texts) => texts.len() == args.len() && forall|i: int|
                0 <= i < args.len() ==> resolved(args[i], results) == Some(#[trigger] texts[i]),
            Err(fault) => exists|i: int|
                0 <= i < args.len() && #[trigger] args[i] == fault && resolved(args[i], results)
                    is None && forall|j: int|
                    0 <= j < i ==> resolved(#[trigger] args[j], results) is Some,
        },
    decreases args.len(),
{
    if args.len() > 0 {
        let front = args.drop_last();
        law_arguments_stand_each_for_itself(front, results);
        match all_resolved(front, results) {
            Err(fault) => {
                let i = choose|i: int|
                    0 <= i < front.len() && #[trigger] front[i] == fault && resolved(
                        front[i],
                        results,
                    ) is None && forall|j: int|
                        0 <= j < i ==> resolved(#[trigger] front[j], results) is Some;
                assert(args[i] == fault);
                assert forall|j: int| 0 <= j < i implies resolved(#[trigger] args[j], results)
                    is Some by {
                    assert(front[j] == args[j]);
                }
            },
            Ok(before) => {
                assert forall|j: int| 0 <= j < args.len() - 1 implies resolved(
                    #[trigger] args[j],
                    results,
                ) is Some by {
                    assert(front[j] == args[j]);
                    assert(resolved(front[j], results) == Some(before[j]));
                }
                match resolved(args.last(), results) {
                    Some(t) => {
                        let texts = before.push(t);
                        assert forall|i: int| 0 <= i < args.len() implies resolved(args[i], results)
                            == Some(#[trigger] texts[i]) by {
                            if i < before.len() {
                                assert(front[i] == args[i]);
                                assert(texts[i] == before[i]);
                            }
                        }
                    },
                    None => {
                        assert(args[args.len() - 1] == args.last());
                    },
                }
            },
        }
    }
}

/// A step is called by its own name, and what it comes to is kept for the steps after it: the text
/// that it gives, and nothing where it fails.
pub proof fn law_results_are_kept_in_order(
    v: RunView,
    outcome: Result<Option<String>, BackendError>,
)
    requires
        v.wf(),
        !v.is_done(),
    ensures
        v.judged(outcome).at == v.at + 1,
        v.judged(outcome).results.len() == v.results.len() + 1,
        v.judged(outcome).results.drop_last() == v.results,
        outcome matches Ok(t) ==> v.judged(outcome).results.last() == t,
        outcome is Err ==> v.judged(outcome).results.last() is None,
        v.judged(outcome).vector == v.vector,
        v.vector.steps@[v.at] is Reopen ==> v.prepared().1 == RunActionView::Reopen,
        v.vector.steps@[v.at] matches Step::Call { op, .. } ==> (v.prepared().1
            matches RunActionView::Call { op: called, .. } ==> called == op@),
        v.prepared().1 is Done ==> v.prepared().0.failure is Some,
{
    assert(v.judged(outcome).results.drop_last() =~= v.results);
}

/// What is reported of a vector that failed begins with its name.
pub proof fn law_failure_names_the_vector(
    name: Seq<char>,
    step: nat,
    expected: Seq<char>,
    actual: Seq<char>,
)
    ensures
        (name + ": step "@ + crate::text::dec(step)).is_prefix_of(
            failure_text(name, step, expected, actual),
        ),
        actual.is_suffix_of(failure_text(name, step, expected, actual)),
{
    let t = failure_text(name, step, expected, actual);
    let head = name + ": step "@ + crate::text::dec(step);
    assert(t.subrange(0, head.len() as int) =~= head);
    assert(t.subrange(t.len() - actual.len(), t.len() as int) =~= actual);
}

} // verus!
