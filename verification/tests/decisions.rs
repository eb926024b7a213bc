use qwn_analysis::switches::confirmed_switches;
use qwn_analysis::verdict::{
    classify_dt_halving_report, classify_gamma_1_5_report, classify_gamma_3_report, classify_run,
    count_diagnostics, select_attempts, Classification, DiagnosticFlags, Quality, RunOutcome,
    SolverAttempt,
};

fn attempt(attempted: bool, passed: bool, minimum: f64) -> SolverAttempt<f64> {
    SolverAttempt { attempted, all_finite: passed, minimum, max_imaginary: 0.0, sum_trace_difference: 0.0, passed }
}

#[test]
fn primary_solver_wins_when_it_passes() {
    let selected = select_attempts(&attempt(true, true, 0.25), &SolverAttempt::not_attempted(f64::NAN));
    assert_eq!(selected.0, "symmetric_eigen");
    assert_eq!(selected.1, Some(0.25));
    assert!(!selected.2 && !selected.3);
}

#[test]
fn both_solvers_failing_is_a_solver_failure() {
    let selected = select_attempts(&attempt(true, false, -1.0), &attempt(true, false, -2.0));
    assert_eq!(selected.0, "none");
    assert_eq!(selected.1, None);
    assert!(selected.2 && selected.3);
    let not_tried = SolverAttempt::not_attempted(f64::NAN);
    assert!(!not_tried.attempted && !not_tried.passed && not_tried.minimum.is_nan());
}

#[test]
fn diagnostics_are_counted() {
    let flags = vec![
        DiagnosticFlags { primary_passed: true, fallback_attempted: false, fallback_passed: false, solver_failure: false, positivity_pass: true },
        DiagnosticFlags { primary_passed: false, fallback_attempted: true, fallback_passed: true, solver_failure: false, positivity_pass: true },
        DiagnosticFlags { primary_passed: false, fallback_attempted: true, fallback_passed: false, solver_failure: true, positivity_pass: false },
    ];
    let c = count_diagnostics(&flags);
    assert_eq!((c.primary_success, c.primary_failure, c.fallback_attempt, c.fallback_success, c.solver_failure), (1, 2, 2, 1, 1));
    assert!(!c.all_positive);
}

#[test]
fn runs_are_classified_in_order() {
    assert_eq!(classify_run(1, true, true, true, 0), Classification::SolverDiagnosticIssueStop);
    assert_eq!(classify_run(0, false, true, true, 3), Classification::NumericalIssueStop);
    assert_eq!(classify_run(0, true, true, true, 3), Classification::CompletedWithFallbackDiagnostic);
    assert_eq!(classify_run(0, true, true, true, 0), Classification::Completed);
    let done = "completed_fixed_total_gamma_3_comparison";
    assert_eq!(Classification::Completed.label(done), done);
    assert_eq!(Classification::NumericalIssueStop.label(done), "numerical_issue_stop");
    assert!(Classification::CompletedWithFallbackDiagnostic.label(done).starts_with("completed_"));
}

#[test]
fn reports_are_classified() {
    let clean = RunOutcome { solver_failure_count: 0, fallback_attempt_count: 0, checks_passed: true };
    let fallback = RunOutcome { solver_failure_count: 0, fallback_attempt_count: 2, checks_passed: true };
    let failing = RunOutcome { solver_failure_count: 1, fallback_attempt_count: 2, checks_passed: false };
    assert_eq!(classify_gamma_3_report(&vec![clean, clean], true), Classification::Completed);
    assert_eq!(classify_gamma_3_report(&vec![clean, fallback], true), Classification::CompletedWithFallbackDiagnostic);
    assert_eq!(classify_gamma_3_report(&vec![clean, failing], true), Classification::SolverDiagnosticIssueStop);
    assert_eq!(classify_gamma_3_report(&vec![clean], false), Classification::NumericalIssueStop);
    assert_eq!(classify_gamma_1_5_report(&vec![failing], true, false), Classification::TrajectoryRegressionStop);
    assert_eq!(classify_gamma_1_5_report(&vec![failing], true, true), Classification::NumericalIssueStop);
    assert_eq!(classify_dt_halving_report(&vec![fallback], true, true, false, true), Classification::RankingInstabilityStop);
    assert_eq!(classify_dt_halving_report(&vec![fallback], false, true, true, true), Classification::CompletedWithScalarConvergenceWarning);
    assert_eq!(classify_dt_halving_report(&vec![fallback], true, true, true, true), Classification::CompletedWithFallbackDiagnostic);
    assert_eq!(classify_dt_halving_report(&vec![clean], true, true, true, false), Classification::NumericalIssueStop);
}

#[test]
fn quality_needs_every_flag() {
    let mut q = Quality {
        trace: true, hermiticity: true, positivity: true, population: true, reduced: true,
        top_level: true, ledger: true, finite: true, ergotropy_bound: true, usable_range: true,
        drive_consistency: true, max_reduced_difference: 1.0e-12,
    };
    assert!(q.all_pass());
    q.ledger = false;
    assert!(!q.all_pass());
}

fn labels(v: &[&str]) -> Vec<String> {
    v.iter().map(|s| s.to_string()).collect()
}

#[test]
fn switches_need_five_equal_labels() {
    let times: Vec<f64> = (0..12).map(|i| i as f64 * 0.01).collect();
    let series = labels(&[
        "undefined", "protect_entrance", "protect_entrance", "protect_entrance", "protect_entrance",
        "protect_entrance", "tie", "protect_exit", "protect_exit", "protect_exit", "protect_exit",
        "protect_exit",
    ]);
    let switches = confirmed_switches(&times, &series);
    assert_eq!(switches, vec![(0.07, "protect_entrance".to_string(), "protect_exit".to_string())]);
}

#[test]
fn no_switch_without_change() {
    let times = vec![0.0, 0.01, 0.02, 0.03, 0.04, 0.05];
    let series = labels(&["tie", "tie", "tie", "tie", "tie", "tie"]);
    assert!(confirmed_switches(&times, &series).is_empty());
    let short = labels(&["undefined", "tie"]);
    assert!(confirmed_switches(&times, &short).is_empty());
}
