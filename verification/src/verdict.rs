//! Decisions of the validation runs: which eigenvalue solver's result stands,
//! what the per-run diagnostics count, and how a run and a whole milestone are
//! classified.
use vstd::prelude::*;
use crate::text::starts_with;

verus! {

/// One eigenvalue solver's attempt on a density matrix. The numeric fields
/// are carried through unchanged; the decisions read only the flags.
pub struct SolverAttempt<M> {
    pub attempted: bool,
    pub all_finite: bool,
    pub minimum: M,
    pub max_imaginary: M,
    pub sum_trace_difference: M,
    pub passed: bool,
}

impl<M: Copy> SolverAttempt<M> {
    /// The record of a solver that was not run: nothing attempted, nothing
    /// finite, nothing passed, and every number set to `missing`.
    pub fn not_attempted(missing: M) -> (a: Self)
        ensures
            !a.attempted,
            !a.all_finite,
            !a.passed,
            a.minimum == missing,
            a.max_imaginary == missing,
            a.sum_trace_difference == missing,
    {
        SolverAttempt {
            attempted: false,
            all_finite: false,
            minimum: missing,
            max_imaginary: missing,
            sum_trace_difference: missing,
            passed: false,
        }
    }
}

/// The solver that stands for a state: the symmetric solver where it passed,
/// else the Schur fallback where that passed, else neither. The result holds
/// the solver's name, its minimum eigenvalue (`None` where neither passed),
/// whether the fallback was used and whether both solvers failed.
pub fn select_attempts<M: Copy>(primary: &SolverAttempt<M>, fallback: &SolverAttempt<M>) -> (r: (
    &'static str,
    Option<M>,
    bool,
    bool,
))
    ensures
        primary.passed ==> r.0@ == "symmetric_eigen"@ && r.1 == Some(primary.minimum) && !r.2
            && !r.3,
        !primary.passed && fallback.passed ==> r.0@ == "complex_schur_fallback"@ && r.1 == Some(
            fallback.minimum,
        ) && r.2 && !r.3,
        !primary.passed && !fallback.passed ==> r.0@ == "none"@ && r.1 is None && r.2
            == fallback.attempted && r.3,
{
    if primary.passed {
        ("symmetric_eigen", Some(primary.minimum), false, false)
    } else if fallback.passed {
        ("complex_schur_fallback", Some(fallback.minimum), true, false)
    } else {
        ("none", None, fallback.attempted, true)
    }
}

/// Both solvers failing is exactly the case in which no minimum is selected,
/// and a fallback counts as used only where the primary solver did not pass.
pub proof fn selection_failure_iff_no_minimum<M>(
    primary: SolverAttempt<M>,
    fallback: SolverAttempt<M>,
    r: (Seq<char>, Option<M>, bool, bool),
)
    requires
        primary.passed ==> r.1 == Some(primary.minimum) && !r.2 && !r.3,
        !primary.passed && fallback.passed ==> r.1 == Some(fallback.minimum) && r.2 && !r.3,
        !primary.passed && !fallback.passed ==> r.1 is None && r.2 == fallback.attempted && r.3,
    ensures
        r.3 <==> r.1 is None,
        r.3 <==> !primary.passed && !fallback.passed,
        r.2 ==> !primary.passed,
{
}

/// The flags of one saved state's positivity diagnostic that the run
/// summary counts.
#[derive(Debug, Clone, Copy)]
pub struct DiagnosticFlags {
    pub primary_passed: bool,
    pub fallback_attempted: bool,
    pub fallback_passed: bool,
    pub solver_failure: bool,
    pub positivity_pass: bool,
}

/// The counts over a run's diagnostics.
#[derive(Debug, Clone, Copy, PartialEq, Eq)]
pub struct DiagnosticCounts {
    pub primary_success: usize,
    pub primary_failure: usize,
    pub fallback_attempt: usize,
    pub fallback_success: usize,
    pub solver_failure: usize,
    pub all_positive: bool,
}

/// How many of the diagnostics satisfy `p`.
pub open spec fn count_where(d: Seq<DiagnosticFlags>, p: spec_fn(DiagnosticFlags) -> bool) -> nat
    decreases d.len(),
{
    if d.len() == 0 {
        0
    } else {
        count_where(d.drop_last(), p) + (if p(d.last()) {
            1nat
        } else {
            0nat
        })
    }
}

proof fn lemma_count_bound(d: Seq<DiagnosticFlags>, p: spec_fn(DiagnosticFlags) -> bool)
    ensures
        count_where(d, p) <= d.len(),
    decreases d.len(),
{
    if d.len() > 0 {
        lemma_count_bound(d.drop_last(), p);
    }
}

/// The primary solver passed.
pub open spec fn primary_ok(f: DiagnosticFlags) -> bool {
    f.primary_passed
}

/// The fallback solver was attempted.
pub open spec fn fallback_tried(f: DiagnosticFlags) -> bool {
    f.fallback_attempted
}

/// The fallback solver was attempted and passed.
pub open spec fn fallback_ok(f: DiagnosticFlags) -> bool {
    f.fallback_attempted && f.fallback_passed
}

/// Both solvers failed.
pub open spec fn solver_failed(f: DiagnosticFlags) -> bool {
    f.solver_failure
}

/// Counts the run's diagnostics: primary successes and failures, fallback
/// attempts and successes, both-solver failures, and whether every state
/// passed positivity.
pub fn count_diagnostics(diagnostics: &Vec<DiagnosticFlags>) -> (c: DiagnosticCounts)
    ensures
        c.primary_success == count_where(diagnostics@, |f: DiagnosticFlags| primary_ok(f)),
        c.primary_failure == diagnostics@.len() - c.primary_success,
        c.fallback_attempt == count_where(diagnostics@, |f: DiagnosticFlags| fallback_tried(f)),
        c.fallback_success == count_where(diagnostics@, |f: DiagnosticFlags| fallback_ok(f)),
        c.solver_failure == count_where(diagnostics@, |f: DiagnosticFlags| solver_failed(f)),
        c.all_positive == forall|i: int|
            0 <= i < diagnostics@.len() ==> (#[trigger] diagnostics@[i]).positivity_pass,
{
    let ghost d = diagnostics@;
    let mut primary_success: usize = 0;
    let mut fallback_attempt: usize = 0;
    let mut fallback_success: usize = 0;
    let mut solver_failure: usize = 0;
    let mut all_positive = true;
    let mut i: usize = 0;
    while i < diagnostics.len()
        invariant
            i <= d.len(),
            d == diagnostics@,
            primary_success == count_where(d.take(i as int), |f: DiagnosticFlags| primary_ok(f)),
            fallback_attempt == count_where(d.take(i as int), |f: DiagnosticFlags| fallback_tried(f)),
            fallback_success == count_where(d.take(i as int), |f: DiagnosticFlags| fallback_ok(f)),
            solver_failure == count_where(d.take(i as int), |f: DiagnosticFlags| solver_failed(f)),
            all_positive == forall|j: int| 0 <= j < i ==> (#[trigger] d[j]).positivity_pass,
        decreases d.len() - i,
    {
        let f = diagnostics[i];
        proof {
            let t = d.take(i + 1);
            assert(t.drop_last() =~= d.take(i as int));
            assert(t.last() == f);
            lemma_count_bound(d.take(i as int), |f: DiagnosticFlags| primary_ok(f));
            lemma_count_bound(d.take(i as int), |f: DiagnosticFlags| fallback_tried(f));
            lemma_count_bound(d.take(i as int), |f: DiagnosticFlags| fallback_ok(f));
            lemma_count_bound(d.take(i as int), |f: DiagnosticFlags| solver_failed(f));
        }
        if f.primary_passed {
            primary_success += 1;
        }
        if f.fallback_attempted {
            fallback_attempt += 1;
        }
        if f.fallback_attempted && f.fallback_passed {
            fallback_success += 1;
        }
        if f.solver_failure {
            solver_failure += 1;
        }
        all_positive = all_positive && f.positivity_pass;
        i += 1;
    }
    proof {
        assert(d.take(d.len() as int) =~= d);
        lemma_count_bound(d, |f: DiagnosticFlags| primary_ok(f));
    }
    DiagnosticCounts {
        primary_success,
        primary_failure: diagnostics.len() - primary_success,
        fallback_attempt,
        fallback_success,
        solver_failure,
        all_positive,
    }
}

/// The classification of one run or of a milestone.
#[derive(Debug, Clone, Copy, PartialEq, Eq)]
pub enum Classification {
    SolverDiagnosticIssueStop,
    NumericalIssueStop,
    TrajectoryRegressionStop,
    RankingInstabilityStop,
    CompletedWithScalarConvergenceWarning,
    CompletedWithFallbackDiagnostic,
    Completed,
}

impl Classification {
    /// The run went through to the end.
    pub open spec fn is_completed(self) -> bool {
        match self {
            Classification::CompletedWithScalarConvergenceWarning => true,
            Classification::CompletedWithFallbackDiagnostic => true,
            Classification::Completed => true,
            _ => false,
        }
    }

    /// The label written for the classification; `completed` is the label of
    /// an unqualified completion, which each milestone names itself.
    pub open spec fn label_spec(self, completed: Seq<char>) -> Seq<char> {
        match self {
            Classification::SolverDiagnosticIssueStop => "solver_diagnostic_issue_stop"@,
            Classification::NumericalIssueStop => "numerical_issue_stop"@,
            Classification::TrajectoryRegressionStop => "trajectory_regression_stop"@,
            Classification::RankingInstabilityStop => "ranking_instability_stop"@,
            Classification::CompletedWithScalarConvergenceWarning => "completed_with_scalar_convergence_warning"@,
            Classification::CompletedWithFallbackDiagnostic => "completed_with_fallback_diagnostic"@,
            Classification::Completed => completed,
        }
    }

    /// The label written for the classification.
    pub fn label(&self, completed: &'static str) -> (text: &'static str)
        ensures
            text@ == self.label_spec(completed@),
    {
        match self {
            Classification::SolverDiagnosticIssueStop => "solver_diagnostic_issue_stop",
            Classification::NumericalIssueStop => "numerical_issue_stop",
            Classification::TrajectoryRegressionStop => "trajectory_regression_stop",
            Classification::RankingInstabilityStop => "ranking_instability_stop",
            Classification::CompletedWithScalarConvergenceWarning => "completed_with_scalar_convergence_warning",
            Classification::CompletedWithFallbackDiagnostic => "completed_with_fallback_diagnostic",
            Classification::Completed => completed,
        }
    }
}

/// A classification's label begins with `completed_` exactly when the run
/// went through, provided the milestone's own completion label does.
pub proof fn completed_label_prefix(c: Classification, completed: Seq<char>)
    requires
        starts_with(completed, "completed_"@),
    ensures
        starts_with(c.label_spec(completed), "completed_"@) <==> c.is_completed(),
{
    reveal_strlit("completed_");
    reveal_strlit("solver_diagnostic_issue_stop");
    reveal_strlit("numerical_issue_stop");
    reveal_strlit("trajectory_regression_stop");
    reveal_strlit("ranking_instability_stop");
    reveal_strlit("completed_with_scalar_convergence_warning");
    reveal_strlit("completed_with_fallback_diagnostic");
    let p = "completed_"@;
    match c {
        Classification::SolverDiagnosticIssueStop => {
            assert("solver_diagnostic_issue_stop"@.take(p.len() as int)[0] != p[0]);
        },
        Classification::NumericalIssueStop => {
            assert("numerical_issue_stop"@.take(p.len() as int)[0] != p[0]);
        },
        Classification::TrajectoryRegressionStop => {
            assert("trajectory_regression_stop"@.take(p.len() as int)[0] != p[0]);
        },
        Classification::RankingInstabilityStop => {
            assert("ranking_instability_stop"@.take(p.len() as int)[0] != p[0]);
        },
        Classification::CompletedWithScalarConvergenceWarning => {
            assert("completed_with_scalar_convergence_warning"@.take(p.len() as int) =~= p);
        },
        Classification::CompletedWithFallbackDiagnostic => {
            assert("completed_with_fallback_diagnostic"@.take(p.len() as int) =~= p);
        },
        Classification::Completed => {},
    }
}

/// The classification of one run from its diagnostic counts and checks:
/// both-solver failures stop it first, then failed state, positivity or
/// construction checks, then a fallback marks the completion.
pub open spec fn run_classification_spec(
    solver_failure_count: nat,
    state_checks: bool,
    positivity_checks: bool,
    construction_passed: bool,
    fallback_attempt_count: nat,
) -> Classification {
    if solver_failure_count > 0 {
        Classification::SolverDiagnosticIssueStop
    } else if !state_checks || !positivity_checks || !construction_passed {
        Classification::NumericalIssueStop
    } else if fallback_attempt_count > 0 {
        Classification::CompletedWithFallbackDiagnostic
    } else {
        Classification::Completed
    }
}

/// Classifies one run.
pub fn classify_run(
    solver_failure_count: usize,
    state_checks: bool,
    positivity_checks: bool,
    construction_passed: bool,
    fallback_attempt_count: usize,
) -> (c: Classification)
    ensures
        c == run_classification_spec(
            solver_failure_count as nat,
            state_checks,
            positivity_checks,
            construction_passed,
            fallback_attempt_count as nat,
        ),
{
    if solver_failure_count > 0 {
        Classification::SolverDiagnosticIssueStop
    } else if !state_checks || !positivity_checks || !construction_passed {
        Classification::NumericalIssueStop
    } else if fallback_attempt_count > 0 {
        Classification::CompletedWithFallbackDiagnostic
    } else {
        Classification::Completed
    }
}

/// What the milestone reports read of each run's summary.
#[derive(Debug, Clone, Copy)]
pub struct RunOutcome {
    pub solver_failure_count: usize,
    pub fallback_attempt_count: usize,
    pub checks_passed: bool,
}

/// Some run had a both-solver failure.
pub open spec fn any_solver_failure(runs: Seq<RunOutcome>) -> bool {
    exists|i: int| 0 <= i < runs.len() && (#[trigger] runs[i]).solver_failure_count > 0
}

/// Some run attempted the fallback solver.
pub open spec fn any_fallback(runs: Seq<RunOutcome>) -> bool {
    exists|i: int| 0 <= i < runs.len() && (#[trigger] runs[i]).fallback_attempt_count > 0
}

/// Some run failed its checks.
pub open spec fn any_failed_checks(runs: Seq<RunOutcome>) -> bool {
    exists|i: int| 0 <= i < runs.len() && !(#[trigger] runs[i]).checks_passed
}

/// Reads the three facts that the reports combine.
fn scan_runs(runs: &Vec<RunOutcome>) -> (r: (bool, bool, bool))
    ensures
        r.0 == any_solver_failure(runs@),
        r.1 == any_fallback(runs@),
        r.2 == any_failed_checks(runs@),
{
    let mut failure = false;
    let mut fallback = false;
    let mut failed = false;
    let mut i: usize = 0;
    while i < runs.len()
        invariant
            i <= runs@.len(),
            failure == exists|j: int| 0 <= j < i && (#[trigger] runs@[j]).solver_failure_count > 0,
            fallback == exists|j: int| 0 <= j < i && (#[trigger] runs@[j]).fallback_attempt_count > 0,
            failed == exists|j: int| 0 <= j < i && !(#[trigger] runs@[j]).checks_passed,
        decreases runs.len() - i,
    {
        let r = runs[i];
        failure = failure || r.solver_failure_count > 0;
        fallback = fallback || r.fallback_attempt_count > 0;
        failed = failed || !r.checks_passed;
        i += 1;
    }
    (failure, fallback, failed)
}

/// The classification of the fixed-total gamma 3 report: a both-solver
/// failure in any run, then any failed check, then any fallback.
pub open spec fn gamma_3_report_spec(runs: Seq<RunOutcome>, checks_passed: bool) -> Classification {
    if any_solver_failure(runs) {
        Classification::SolverDiagnosticIssueStop
    } else if !checks_passed || any_failed_checks(runs) {
        Classification::NumericalIssueStop
    } else if any_fallback(runs) {
        Classification::CompletedWithFallbackDiagnostic
    } else {
        Classification::Completed
    }
}

/// Classifies the fixed-total gamma 3 report.
pub fn classify_gamma_3_report(runs: &Vec<RunOutcome>, checks_passed: bool) -> (c: Classification)
    ensures
        c == gamma_3_report_spec(runs@, checks_passed),
{
    let (failure, fallback, failed) = scan_runs(runs);
    if failure {
        Classification::SolverDiagnosticIssueStop
    } else if !checks_passed || failed {
        Classification::NumericalIssueStop
    } else if fallback {
        Classification::CompletedWithFallbackDiagnostic
    } else {
        Classification::Completed
    }
}

/// The classification of the fixed-total gamma 1.5 report: a trajectory
/// regression first, then any solver failure or failed check, then any
/// fallback.
pub open spec fn gamma_1_5_report_spec(
    runs: Seq<RunOutcome>,
    checks_passed: bool,
    trajectory_matches: bool,
) -> Classification {
    if !trajectory_matches {
        Classification::TrajectoryRegressionStop
    } else if any_solver_failure(runs) || any_failed_checks(runs) || !checks_passed {
        Classification::NumericalIssueStop
    } else if any_fallback(runs) {
        Classification::CompletedWithFallbackDiagnostic
    } else {
        Classification::Completed
    }
}

/// Classifies the fixed-total gamma 1.5 report.
pub fn classify_gamma_1_5_report(runs: &Vec<RunOutcome>, checks_passed: bool, trajectory_matches: bool) -> (c:
    Classification)
    ensures
        c == gamma_1_5_report_spec(runs@, checks_passed, trajectory_matches),
{
    let (failure, fallback, failed) = scan_runs(runs);
    if !trajectory_matches {
        Classification::TrajectoryRegressionStop
    } else if failure || failed || !checks_passed {
        Classification::NumericalIssueStop
    } else if fallback {
        Classification::CompletedWithFallbackDiagnostic
    } else {
        Classification::Completed
    }
}

/// The classification of the dt-halving report: failed physical checks,
/// then an unstable ranking, then scalar or trajectory warnings, then any
/// fallback.
pub open spec fn dt_halving_report_spec(
    runs: Seq<RunOutcome>,
    scalar_passed: bool,
    trajectory_passed: bool,
    ranking_preserved: bool,
    physical_checks_passed: bool,
) -> Classification {
    if !physical_checks_passed {
        Classification::NumericalIssueStop
    } else if !ranking_preserved {
        Classification::RankingInstabilityStop
    } else if !scalar_passed || !trajectory_passed {
        Classification::CompletedWithScalarConvergenceWarning
    } else if any_fallback(runs) {
        Classification::CompletedWithFallbackDiagnostic
    } else {
        Classification::Completed
    }
}

/// Classifies the dt-halving report.
pub fn classify_dt_halving_report(
    runs: &Vec<RunOutcome>,
    scalar_passed: bool,
    trajectory_passed: bool,
    ranking_preserved: bool,
    physical_checks_passed: bool,
) -> (c: Classification)
    ensures
        c == dt_halving_report_spec(
            runs@,
            scalar_passed,
            trajectory_passed,
            ranking_preserved,
            physical_checks_passed,
        ),
{
    let (_failure, fallback, _failed) = scan_runs(runs);
    if !physical_checks_passed {
        Classification::NumericalIssueStop
    } else if !ranking_preserved {
        Classification::RankingInstabilityStop
    } else if !scalar_passed || !trajectory_passed {
        Classification::CompletedWithScalarConvergenceWarning
    } else if fallback {
        Classification::CompletedWithFallbackDiagnostic
    } else {
        Classification::Completed
    }
}

/// A run is classified as completed exactly when no solver failed and its
/// state, positivity and construction checks all passed.
pub proof fn run_completed_iff_clean(
    solver_failure_count: nat,
    state_checks: bool,
    positivity_checks: bool,
    construction_passed: bool,
    fallback_attempt_count: nat,
)
    ensures
        run_classification_spec(
            solver_failure_count,
            state_checks,
            positivity_checks,
            construction_passed,
            fallback_attempt_count,
        ).is_completed() <==> (solver_failure_count == 0 && state_checks && positivity_checks
            && construction_passed),
{
}

/// Where every run is classified as completed and the milestone's own checks
/// passed, the gamma 3 report is completed as well, and it reports the
/// fallback exactly where some run used it.
pub proof fn gamma_3_report_completes(runs: Seq<RunOutcome>, checks_passed: bool)
    requires
        checks_passed,
        forall|i: int|
            0 <= i < runs.len() ==> (#[trigger] runs[i]).solver_failure_count == 0
                && runs[i].checks_passed,
    ensures
        gamma_3_report_spec(runs, checks_passed).is_completed(),
        gamma_3_report_spec(runs, checks_passed) == Classification::CompletedWithFallbackDiagnostic
            <==> any_fallback(runs),
{
}

/// The milestone reports never complete over a run with a both-solver
/// failure, except the dt-halving report, whose own physical checks decide.
pub proof fn reports_stop_on_solver_failure(
    runs: Seq<RunOutcome>,
    checks_passed: bool,
    trajectory_matches: bool,
)
    requires
        any_solver_failure(runs),
    ensures
        !gamma_3_report_spec(runs, checks_passed).is_completed(),
        !gamma_1_5_report_spec(runs, checks_passed, trajectory_matches).is_completed(),
{
}

/// The quality flags of one protection analysis.
pub struct Quality<M> {
    pub trace: bool,
    pub hermiticity: bool,
    pub positivity: bool,
    pub population: bool,
    pub reduced: bool,
    pub top_level: bool,
    pub ledger: bool,
    pub finite: bool,
    pub ergotropy_bound: bool,
    pub usable_range: bool,
    pub drive_consistency: bool,
    pub max_reduced_difference: M,
}

impl<M> Quality<M> {
    /// Every quality flag holds.
    pub open spec fn all_pass_spec(&self) -> bool {
        self.trace && self.hermiticity && self.positivity && self.population && self.reduced
            && self.top_level && self.ledger && self.finite && self.ergotropy_bound
            && self.usable_range && self.drive_consistency
    }

    /// Whether every quality flag holds.
    pub fn all_pass(&self) -> (r: bool)
        ensures
            r == self.all_pass_spec(),
    {
        self.trace && self.hermiticity && self.positivity && self.population && self.reduced
            && self.top_level && self.ledger && self.finite && self.ergotropy_bound
            && self.usable_range && self.drive_consistency
    }
}

} // verus!

verus! {

proof fn lemma_count_implied(
    d: Seq<DiagnosticFlags>,
    p: spec_fn(DiagnosticFlags) -> bool,
    q: spec_fn(DiagnosticFlags) -> bool,
)
    requires
        forall|f: DiagnosticFlags| #[trigger] p(f) ==> q(f),
    ensures
        count_where(d, p) <= count_where(d, q),
    decreases d.len(),
{
    if d.len() > 0 {
        lemma_count_implied(d.drop_last(), p, q);
    }
}

/// A run never counts more fallback successes than fallback attempts, and
/// its primary successes and failures together are its saved states.
pub proof fn fallback_successes_within_attempts(d: Seq<DiagnosticFlags>)
    ensures
        count_where(d, |f: DiagnosticFlags| fallback_ok(f)) <= count_where(
            d,
            |f: DiagnosticFlags| fallback_tried(f),
        ),
        count_where(d, |f: DiagnosticFlags| primary_ok(f)) <= d.len(),
{
    lemma_count_implied(d, |f: DiagnosticFlags| fallback_ok(f), |f: DiagnosticFlags| fallback_tried(f));
    lemma_count_bound(d, |f: DiagnosticFlags| primary_ok(f));
}

} // verus!

verus! {

/// A both-solver failure stops a run whatever its other checks say; a run
/// without one stops on a failed state, positivity or construction check; a
/// clean run is completed, and marked with the fallback exactly where the
/// fallback solver was attempted. No run is ever classified by a
/// milestone-level outcome (trajectory, ranking or scalar warning).
pub proof fn run_classification_order(
    solver_failure_count: nat,
    state_checks: bool,
    positivity_checks: bool,
    construction_passed: bool,
    fallback_attempt_count: nat,
)
    ensures
        ({
            let c = run_classification_spec(
                solver_failure_count,
                state_checks,
                positivity_checks,
                construction_passed,
                fallback_attempt_count,
            );
            &&& solver_failure_count > 0 ==> c == Classification::SolverDiagnosticIssueStop
            &&& c == Classification::SolverDiagnosticIssueStop ==> solver_failure_count > 0
            &&& c == Classification::NumericalIssueStop <==> (solver_failure_count == 0 && !(
            state_checks && positivity_checks && construction_passed))
            &&& c == Classification::CompletedWithFallbackDiagnostic <==> (solver_failure_count
                == 0 && state_checks && positivity_checks && construction_passed
                && fallback_attempt_count > 0)
            &&& c == Classification::Completed <==> (solver_failure_count == 0 && state_checks
                && positivity_checks && construction_passed && fallback_attempt_count == 0)
            &&& c != Classification::TrajectoryRegressionStop
            &&& c != Classification::RankingInstabilityStop
            &&& c != Classification::CompletedWithScalarConvergenceWarning
        }),
{
}

/// The gamma 1.5 report: a trajectory that does not match the stored one
/// stops it first; with the trajectory matching, a solver failure or failed
/// check of any run, or a failed check of the milestone itself, stops it as
/// a numerical issue. It is completed exactly when the trajectory matches,
/// no run failed and the milestone's own checks passed, and it is marked
/// with the fallback exactly where some run attempted the fallback.
pub proof fn gamma_1_5_report_order(
    runs: Seq<RunOutcome>,
    checks_passed: bool,
    trajectory_matches: bool,
)
    ensures
        ({
            let c = gamma_1_5_report_spec(runs, checks_passed, trajectory_matches);
            let clean = forall|i: int|
                0 <= i < runs.len() ==> (#[trigger] runs[i]).solver_failure_count == 0
                    && runs[i].checks_passed;
            &&& c == Classification::TrajectoryRegressionStop <==> !trajectory_matches
            &&& trajectory_matches && !checks_passed ==> c == Classification::NumericalIssueStop
            &&& (trajectory_matches && exists|i: int|
                0 <= i < runs.len() && ((#[trigger] runs[i]).solver_failure_count > 0
                    || !runs[i].checks_passed)) ==> c == Classification::NumericalIssueStop
            &&& c.is_completed() <==> (trajectory_matches && checks_passed && clean)
            &&& c == Classification::CompletedWithFallbackDiagnostic <==> (c.is_completed()
                && exists|i: int| 0 <= i < runs.len() && (#[trigger] runs[i]).fallback_attempt_count > 0)
            &&& c != Classification::SolverDiagnosticIssueStop
            &&& c != Classification::RankingInstabilityStop
            &&& c != Classification::CompletedWithScalarConvergenceWarning
        }),
{
    let c = gamma_1_5_report_spec(runs, checks_passed, trajectory_matches);
    let clean = forall|i: int|
        0 <= i < runs.len() ==> (#[trigger] runs[i]).solver_failure_count == 0
            && runs[i].checks_passed;
    if clean {
        assert(!any_solver_failure(runs));
        assert(!any_failed_checks(runs));
    }
    if any_solver_failure(runs) || any_failed_checks(runs) {
        assert(!clean);
    }
}

/// The gamma 3 report: a both-solver failure in any run stops it first; then
/// a failed check of the milestone or of any run stops it as a numerical
/// issue. It is completed exactly when no run failed and the milestone's own
/// checks passed, and it is marked with the fallback exactly where some run
/// attempted the fallback.
pub proof fn gamma_3_report_order(runs: Seq<RunOutcome>, checks_passed: bool)
    ensures
        ({
            let c = gamma_3_report_spec(runs, checks_passed);
            let clean = forall|i: int|
                0 <= i < runs.len() ==> (#[trigger] runs[i]).solver_failure_count == 0
                    && runs[i].checks_passed;
            &&& (exists|i: int| 0 <= i < runs.len() && (#[trigger] runs[i]).solver_failure_count
                > 0) ==> c == Classification::SolverDiagnosticIssueStop
            &&& c == Classification::SolverDiagnosticIssueStop ==> exists|i: int|
                0 <= i < runs.len() && (#[trigger] runs[i]).solver_failure_count > 0
            &&& (forall|i: int| 0 <= i < runs.len() ==> (#[trigger] runs[i]).solver_failure_count
                == 0) && !checks_passed ==> c == Classification::NumericalIssueStop
            &&& c.is_completed() <==> (checks_passed && clean)
            &&& c == Classification::CompletedWithFallbackDiagnostic <==> (c.is_completed()
                && exists|i: int| 0 <= i < runs.len() && (#[trigger] runs[i]).fallback_attempt_count > 0)
            &&& c != Classification::TrajectoryRegressionStop
            &&& c != Classification::RankingInstabilityStop
            &&& c != Classification::CompletedWithScalarConvergenceWarning
        }),
{
    let clean = forall|i: int|
        0 <= i < runs.len() ==> (#[trigger] runs[i]).solver_failure_count == 0
            && runs[i].checks_passed;
    if clean {
        assert(!any_solver_failure(runs));
        assert(!any_failed_checks(runs));
    }
    if any_solver_failure(runs) || any_failed_checks(runs) {
        assert(!clean);
    }
}

/// The dt-halving report: failed physical checks stop it first, then an
/// unstable ranking; otherwise it is completed, with a convergence warning
/// exactly where the scalar or trajectory comparison failed, and else with
/// the fallback exactly where some run attempted it.
pub proof fn dt_halving_report_order(
    runs: Seq<RunOutcome>,
    scalar_passed: bool,
    trajectory_passed: bool,
    ranking_preserved: bool,
    physical_checks_passed: bool,
)
    ensures
        ({
            let c = dt_halving_report_spec(
                runs,
                scalar_passed,
                trajectory_passed,
                ranking_preserved,
                physical_checks_passed,
            );
            &&& c == Classification::NumericalIssueStop <==> !physical_checks_passed
            &&& c == Classification::RankingInstabilityStop <==> (physical_checks_passed
                && !ranking_preserved)
            &&& c.is_completed() <==> (physical_checks_passed && ranking_preserved)
            &&& c == Classification::CompletedWithScalarConvergenceWarning <==> (c.is_completed()
                && !(scalar_passed && trajectory_passed))
            &&& c == Classification::CompletedWithFallbackDiagnostic <==> (c.is_completed()
                && scalar_passed && trajectory_passed && exists|i: int|
                0 <= i < runs.len() && (#[trigger] runs[i]).fallback_attempt_count > 0)
            &&& c != Classification::SolverDiagnosticIssueStop
            &&& c != Classification::TrajectoryRegressionStop
        }),
{
}

/// A report over more runs is completed only if the report over fewer runs
/// is: adding a run never turns a stopped gamma 3 or gamma 1.5 report into a
/// completed one.
pub proof fn reports_monotone_in_runs(
    runs: Seq<RunOutcome>,
    extra: RunOutcome,
    checks_passed: bool,
    trajectory_matches: bool,
)
    ensures
        gamma_3_report_spec(runs.push(extra), checks_passed).is_completed()
            ==> gamma_3_report_spec(runs, checks_passed).is_completed(),
        gamma_1_5_report_spec(runs.push(extra), checks_passed, trajectory_matches).is_completed()
            ==> gamma_1_5_report_spec(runs, checks_passed, trajectory_matches).is_completed(),
        (extra.solver_failure_count > 0 || !extra.checks_passed) ==> !gamma_3_report_spec(
            runs.push(extra),
            checks_passed,
        ).is_completed() && !gamma_1_5_report_spec(
            runs.push(extra),
            checks_passed,
            trajectory_matches,
        ).is_completed(),
{
    let more = runs.push(extra);
    if any_solver_failure(runs) {
        let i = choose|i: int| 0 <= i < runs.len() && (#[trigger] runs[i]).solver_failure_count > 0;
        assert(more[i] == runs[i]);
    }
    if any_failed_checks(runs) {
        let i = choose|i: int| 0 <= i < runs.len() && !(#[trigger] runs[i]).checks_passed;
        assert(more[i] == runs[i]);
    }
    if any_fallback(runs) {
        let i = choose|i: int| 0 <= i < runs.len() && (#[trigger] runs[i]).fallback_attempt_count > 0;
        assert(more[i] == runs[i]);
    }
    assert(more[runs.len() as int] == extra);
}

} // verus!
