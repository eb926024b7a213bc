use qwn_analysis::csv::{existing_value, find_record, find_record_with_count, read_records, CsvError, CsvTable};
use qwn_analysis::text::{is_whitespace_char, replace_chars, split_text, str_equal, text_lines};

#[test]
fn split_keeps_empty_fields() {
    assert_eq!(split_text("a,,b,", ','), vec!["a", "", "b", ""]);
    assert_eq!(split_text("", ','), vec![""]);
    assert_eq!(split_text("plain", ','), vec!["plain"]);
}

#[test]
fn lines_follow_str_lines() {
    let text = "h1,h2\r\n1,2\n\n3,4\n";
    let expected: Vec<&str> = text.lines().collect();
    assert_eq!(text_lines(text), expected);
    assert_eq!(text_lines(""), Vec::<String>::new());
    assert_eq!(text_lines("a\rb"), vec!["a\rb"]);
    assert_eq!(text_lines("x\r"), vec!["x\r"]);
}

#[test]
fn whitespace_matches_std() {
    for c in ['\t', '\n', ' ', '\u{85}', '\u{A0}', '\u{2003}', '\u{3000}', 'a', '0', '\u{200B}'] {
        assert_eq!(is_whitespace_char(c), c.is_whitespace(), "{c:?}");
    }
}

#[test]
fn replace_and_equal() {
    assert_eq!(replace_chars("a,b,c", ',', ';'), "a;b;c");
    assert!(str_equal("XGamma", "XGamma"));
    assert!(!str_equal("XGamma", "XGamma_at_t10"));
}

#[test]
fn table_reads_header_and_rows() {
    let table = CsvTable::read("condition,E_time_area_0_to_t10\nN3,0.5\nN5,0.25\n").unwrap();
    assert_eq!(table.header, vec!["condition", "E_time_area_0_to_t10"]);
    assert_eq!(table.rows, vec![vec!["N3", "0.5"], vec!["N5", "0.25"]]);
    assert_eq!(table.col("E_time_area_0_to_t10"), 1);
    assert!(matches!(CsvTable::read(""), Err(CsvError::MissingHeader)));
}

#[test]
fn table_finds_first_matching_row() {
    let table = CsvTable::read("condition,arrival_definition,arrival_time\nA,energy_ge_1e-4,1.0\nA,ergotropy_ge_1e-5,2.0\nB,energy_ge_1e-4,3.0").unwrap();
    let c = table.col("condition");
    let d = table.col("arrival_definition");
    assert_eq!(table.find_row(&vec![c, d], &vec!["A", "ergotropy_ge_1e-5"]), Some(1));
    assert_eq!(table.find_row(&vec![c], &vec!["B"]), Some(2));
    assert_eq!(table.find_row(&vec![c], &vec!["C"]), None);
}

#[test]
fn records_skip_blank_lines_and_check_width() {
    let rows = read_records("chain_length,W_max\n\n3,0.1\n  \n5,0.2\n", false, &vec![]).unwrap();
    assert_eq!(rows.len(), 2);
    assert_eq!(rows[1].get("W_max").map(String::as_str), Some("0.2"));
    match read_records("a,b\n1,2\n\n1\n", false, &vec![]) {
        Err(CsvError::WidthMismatch { line, expected, found }) => {
            assert_eq!((line, expected, found), (4, 2, 1));
        }
        _ => panic!("expected a width mismatch"),
    }
    assert!(matches!(read_records("", false, &vec![]), Err(CsvError::MissingHeader)));
    assert!(matches!(read_records("\n  \n", true, &vec![]), Err(CsvError::MissingHeader)));
}

#[test]
fn records_header_may_follow_blank_lines() {
    let rows = read_records("\n\nchain_length,value_status\n7,available\n", true, &vec![]).unwrap();
    assert_eq!(rows.len(), 1);
    assert_eq!(existing_value(&rows[0], "value_status"), "available");
    assert_eq!(existing_value(&rows[0], "XGamma"), "not_available");
    assert!(read_records("\n\nchain_length,x\n7,1\n", false, &vec![]).is_err());
}

#[test]
fn records_require_columns_before_widths() {
    let text = "chain_length,time\n3,0.0,extra\n";
    match read_records(text, false, &vec!["chain_length", "drive_power"]) {
        Err(CsvError::MissingColumn(name)) => assert_eq!(name, "drive_power"),
        _ => panic!("expected a missing column"),
    }
}

#[test]
fn duplicate_columns_keep_the_last_value() {
    let rows = read_records("x,x\n1,2\n", false, &vec![]).unwrap();
    assert_eq!(rows[0].get("x").map(String::as_str), Some("2"));
}

#[test]
fn record_lookup_by_text_and_count() {
    let rows = read_records(
        "chain_length,noise_condition,W_max\n3,noise_free,0.1\n3,fixed_total_gamma_1_5,0.2\n+5,noise_free,0.3\n",
        false,
        &vec![],
    )
    .unwrap();
    assert_eq!(find_record(&rows, &vec!["chain_length", "noise_condition"], &vec!["3", "fixed_total_gamma_1_5"]), Some(1));
    assert_eq!(find_record(&rows, &vec!["chain_length"], &vec!["5"]), None);
    assert_eq!(find_record_with_count(&rows, "chain_length", 5), Some(2));
    assert_eq!(find_record_with_count(&rows, "chain_length", 7), None);
}
