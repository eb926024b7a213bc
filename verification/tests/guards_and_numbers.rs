use qwn_analysis::conditions::{gamma_3_schedule, ConditionSpec, Ratio};
use qwn_analysis::guards::{
    count_check_statuses, ensure_new_outputs, find_line_fields, first_absent, first_set_index,
    has_failed_check,
};
use qwn_analysis::numbers::{decimal_text, parse_usize};

#[test]
fn outputs_must_be_new() {
    let outputs = vec!["a.csv", "b.csv", "c.md"];
    assert_eq!(ensure_new_outputs(&outputs, &vec![false, false, false]), Ok(()));
    assert_eq!(
        ensure_new_outputs(&outputs, &vec![false, true, true]),
        Err("refusing to overwrite existing output b.csv".to_string())
    );
    assert_eq!(first_absent(&vec![true, true]), None);
    assert_eq!(first_absent(&vec![true, false, false]), Some(1));
    assert_eq!(first_set_index(&vec![false, false]), None);
    assert_eq!(first_set_index(&vec![false, true, true]), Some(1));
}

#[test]
fn check_tables_are_tallied() {
    let text = "stage,condition,check,observed,expected,status\nunit,all,a,1,1,PASS\nunit,all,b,1,2,FAIL\nunit,all,c,1,1,PASS\n";
    assert_eq!(count_check_statuses(text), (2, 1));
    assert!(has_failed_check(text));
    assert!(!has_failed_check("status,FAIL\nx,PASS\n"));
    assert_eq!(count_check_statuses(""), (0, 0));
}

#[test]
fn estimate_line_is_found_by_prefix() {
    let text = "chain_length,condition,a,b\n7,N7_noise_free,1,2\n7,N7_all_site_noisy,3,4\n";
    assert_eq!(
        find_line_fields(text, "7,N7_all_site_noisy,"),
        Some(vec!["7".to_string(), "N7_all_site_noisy".into(), "3".into(), "4".into()])
    );
    assert_eq!(find_line_fields(text, "5,"), None);
}

#[test]
fn counts_as_text() {
    assert_eq!(decimal_text(0), "0");
    assert_eq!(decimal_text(1001), "1001");
    assert_eq!(decimal_text(usize::MAX), usize::MAX.to_string());
    for s in ["7", "+7", "-7", "", "+", "07", "1a", "18446744073709551616", "4294967296"] {
        assert_eq!(parse_usize(s), s.parse::<usize>().ok(), "{s:?}");
    }
}

#[test]
fn site_rates_and_schedule() {
    let spec = ConditionSpec { n: 7, dim: 384, total_gamma: Ratio { num: 3, den: 2 } };
    let g = spec.gamma_site();
    assert_eq!((g.num, g.den), (3, 14));
    assert_eq!(g.num as f64 / g.den as f64, 1.5 / 7.0);
    let s = gamma_3_schedule();
    assert_eq!(s.dt.num as f64 / s.dt.den as f64, 0.0025);
    assert_eq!(s.steps / s.save_every_steps + 1, s.saved_points);
}
