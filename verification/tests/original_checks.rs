use qwn_analysis::conditions::{dt_halving_schedule, dt_halving_specs, gamma_3_specs};
use qwn_analysis::verdict::{select_attempts, SolverAttempt};

fn gamma_site(spec: &qwn_analysis::conditions::ConditionSpec) -> f64 {
    let g = spec.gamma_site();
    g.num as f64 / g.den as f64
}

fn total_gamma(spec: &qwn_analysis::conditions::ConditionSpec) -> f64 {
    spec.total_gamma.num as f64 / spec.total_gamma.den as f64
}

#[test]
fn fixed_total_dt_halving_validation_fallback_selection_is_separate_from_state_finiteness() {
    let failed = SolverAttempt {
        attempted: true,
        all_finite: false,
        minimum: f64::NAN,
        max_imaginary: f64::NAN,
        sum_trace_difference: f64::NAN,
        passed: false,
    };
    let fallback = SolverAttempt {
        attempted: true,
        all_finite: true,
        minimum: -1.0e-12,
        max_imaginary: 0.0,
        sum_trace_difference: 1.0e-15,
        passed: true,
    };
    let selected = select_attempts(&failed, &fallback);
    assert_eq!(selected.0, "complex_schur_fallback");
    assert!(selected.2 && !selected.3);
}

#[test]
fn fixed_total_gamma_3_comparison_fallback_selection_is_separate_from_state_finiteness() {
    let failed = SolverAttempt {
        attempted: true,
        all_finite: false,
        minimum: f64::NAN,
        max_imaginary: f64::NAN,
        sum_trace_difference: f64::NAN,
        passed: false,
    };
    let fallback = SolverAttempt {
        attempted: true,
        all_finite: true,
        minimum: -1.0e-12,
        max_imaginary: 0.0,
        sum_trace_difference: 1.0e-15,
        passed: true,
    };
    let selected = select_attempts(&failed, &fallback);
    assert_eq!(selected.0, "complex_schur_fallback");
    assert!(selected.2 && !selected.3);
}

#[test]
fn fixed_total_dt_halving_validation_only_requested_conditions_are_enumerated() {
    let specs = dt_halving_specs();
    assert_eq!(specs.iter().map(|spec| spec.n).collect::<Vec<_>>(), vec![3, 7, 3, 7]);
    assert!(specs
        .iter()
        .all(|spec| (gamma_site(spec) * spec.n as f64 - total_gamma(spec)).abs() <= 1.0e-14));
    assert!(specs.iter().all(|spec| spec.n != 5));
    let schedule = dt_halving_schedule();
    assert_eq!(schedule.dt.num as f64 / schedule.dt.den as f64, 0.00125);
    assert_eq!(schedule.steps, 8000);
}

#[test]
fn fixed_total_gamma_3_comparison_only_requested_conditions_are_enumerated() {
    let specs = gamma_3_specs();
    assert_eq!(specs.iter().map(|spec| spec.n).collect::<Vec<_>>(), vec![3, 5, 7]);
    assert!(specs
        .iter()
        .all(|spec| (gamma_site(spec) * spec.n as f64 - 3.0).abs() <= 1.0e-14));
}
