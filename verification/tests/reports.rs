use qwn_analysis::report::{
    all_checks_pass, append_check, b, bool_text, check_row, coarse_column, csv_field, pass,
    precheck_check_lines, Check,
};

#[test]
fn words() {
    assert_eq!(b(true), "true");
    assert_eq!(b(false), "false");
    assert_eq!(bool_text(true), "true");
    assert_eq!(pass(true), "PASS");
    assert_eq!(pass(false), "FAIL");
}

#[test]
fn coarse_column_aliases_xgamma() {
    assert_eq!(coarse_column("XGamma"), "XGamma_at_t10");
    assert_eq!(coarse_column("W_max"), "W_max");
}

#[test]
fn fields_are_quoted_when_needed() {
    assert_eq!(csv_field("plain text"), "plain text");
    assert_eq!(csv_field("a,b"), "\"a,b\"");
    assert_eq!(csv_field("say \"hi\""), "\"say \"\"hi\"\"\"");
    assert_eq!(csv_field("two\nlines"), "\"two\nlines\"");
    assert_eq!(csv_field(""), "");
}

#[test]
fn check_rows_replace_commas() {
    let mut out = Vec::new();
    check_row(&mut out, "trace_checks_pass", "all", true, "tolerance=1e-8, max=2e-9");
    assert_eq!(out, vec!["trace_checks_pass,all,true,tolerance=1e-8; max=2e-9"]);
    assert_eq!(out[0].split(',').count(), 4);
}

#[test]
fn staged_checks_put_stage_first() {
    let mut out = vec!["stage,condition,check,observed,expected,status".to_string()];
    append_check(&mut out, "N5_fixed_total_noise", "construction", "dimension", "96", "96", true);
    append_check(&mut out, "N7_fixed_total_noise", "final", "trace", "1e-3", "<=1e-8", false);
    assert_eq!(out[1], "construction,N5_fixed_total_noise,dimension,96,96,PASS");
    assert_eq!(out[2], "final,N7_fixed_total_noise,trace,1e-3,<=1e-8,FAIL");
}

#[test]
fn precheck_table() {
    let checks = vec![
        Check { name: "formal_timeseries_loaded".into(), passed: true, details: "loaded 2002 data rows".into() },
        Check { name: "energy_identity_holds".into(), passed: false, details: "tolerance=1.0e-12; residuals N3=1e-13, N7=2e-13".into() },
    ];
    let lines = precheck_check_lines(&checks);
    assert_eq!(lines[0], "check_name,passed,details");
    assert_eq!(lines[1], "formal_timeseries_loaded,true,loaded 2002 data rows");
    assert_eq!(lines[2], "energy_identity_holds,false,\"tolerance=1.0e-12; residuals N3=1e-13, N7=2e-13\"");
    assert!(!all_checks_pass(&checks));
    assert!(all_checks_pass(&checks[..1].iter().map(|c| Check { name: c.name.clone(), passed: c.passed, details: c.details.clone() }).collect()));
}
