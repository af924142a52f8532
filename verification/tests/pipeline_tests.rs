use deltahist::config::{single_file_to_hist, dual_file_to_hist, Config};
use deltahist::errors::Error;
use deltahist::policy::{decide, Disposition, OOBRule};
use deltahist::rows::new_reader;
use deltahist::pipeline::{run_dual, run_single};

fn s(x: &str) -> String {
    x.to_string()
}

fn header_ps() -> Vec<String> {
    vec![s("p"), s("s")]
}

fn row2(a: &str, b: &str) -> Vec<String> {
    vec![s(a), s(b)]
}

fn decode_hist(text: &str) -> hdrhistogram::Histogram<u64> {
    let bytes = base64::decode(text).expect("output must be valid base64");
    let mut deser = hdrhistogram::serialization::Deserializer::new();
    deser
        .deserialize(&mut &bytes[..])
        .expect("output must be a serialized histogram")
}

#[test]
fn single_stream_drop_records_one_value() {
    // Rows (120, 100) and (80, 100) under Drop: only the difference 20 is kept.
    let header = header_ps();
    let rows = vec![row2("120", "100"), row2("80", "100")];
    let reader = new_reader(&header, "p", Some("s"), None).unwrap();
    let deltas = run_single(&reader, &rows, OOBRule::Drop, 30000).unwrap();
    assert_eq!(deltas, vec![20u64]);

    let out = single_file_to_hist(&header, &rows, "p", "s", 30000, 2, OOBRule::Drop).unwrap();
    let hist = decode_hist(&out);
    assert_eq!(hist.len(), 1);
    assert_eq!(hist.count_at(20), 1);
    assert_eq!(hist.count_at(0), 0);
}

#[test]
fn dual_stream_saturate_out_of_order_right() {
    // Left A=50, B=70; right delivered B=60 then A=40: deltas 10 and 10.
    let header = vec![s("j"), s("v")];
    let left = vec![row2("A", "50"), row2("B", "70")];
    let right = vec![row2("B", "60"), row2("A", "40")];
    let lreader = new_reader(&header, "v", None, Some("j")).unwrap();
    let rreader = new_reader(&header, "v", None, Some("j")).unwrap();
    let deltas = run_dual(&lreader, &left, rreader, right.clone(), OOBRule::Saturate, 30000)
        .unwrap();
    assert_eq!(deltas, vec![10u64, 10u64]);

    let out = dual_file_to_hist(&header, &left, &header, right, "v", "v", "j", 30000, 2,
        OOBRule::Saturate)
        .unwrap();
    let hist = decode_hist(&out);
    assert_eq!(hist.len(), 2);
    assert_eq!(hist.count_at(10), 2);
}

#[test]
fn saturate_clamps_both_ways() {
    // A difference of -5 with max 100 records 0; a difference of 500 records 100.
    assert_eq!(decide(OOBRule::Saturate, 95, 100, 100), Disposition::Record(0));
    assert_eq!(decide(OOBRule::Saturate, 600, 100, 100), Disposition::Record(100));
    let header = header_ps();
    let rows = vec![row2("95", "100"), row2("600", "100")];
    let out = single_file_to_hist(&header, &rows, "p", "s", 100, 2, OOBRule::Saturate).unwrap();
    let hist = decode_hist(&out);
    assert_eq!(hist.len(), 2);
    assert_eq!(hist.count_at(0), 1);
    assert_eq!(hist.count_at(100), 1);
}

#[test]
fn error_rule_negative_difference_is_fatal() {
    let header = header_ps();
    let rows = vec![row2("80", "100")];
    match single_file_to_hist(&header, &rows, "p", "s", 30000, 2, OOBRule::Error) {
        Err(Error::UserError(_)) => {},
        other => panic!("expected a fatal range error, got {:?}", other),
    }
}

#[test]
fn error_rule_too_large_difference_is_fatal() {
    // max_value itself is outside [0, max_value) under the Error rule.
    let header = header_ps();
    let rows = vec![row2("200", "100")];
    match single_file_to_hist(&header, &rows, "p", "s", 100, 2, OOBRule::Error) {
        Err(Error::UserError(_)) => {},
        other => panic!("expected a fatal range error, got {:?}", other),
    }
}

#[test]
fn error_rule_in_range_is_recorded() {
    let header = header_ps();
    let rows = vec![row2("120", "100")];
    let out = single_file_to_hist(&header, &rows, "p", "s", 30000, 2, OOBRule::Error).unwrap();
    let hist = decode_hist(&out);
    assert_eq!(hist.len(), 1);
    assert_eq!(hist.count_at(20), 1);
}

#[test]
fn drop_rule_keeps_exactly_in_range_differences() {
    let header = header_ps();
    let rows = vec![
        row2("120", "100"), // 20: kept
        row2("80", "100"),  // -20: dropped
        row2("300", "100"), // 200 >= max 100: dropped
        row2("99", "0"),    // 99: kept
    ];
    let reader = new_reader(&header, "p", Some("s"), None).unwrap();
    let deltas = run_single(&reader, &rows, OOBRule::Drop, 100).unwrap();
    assert_eq!(deltas, vec![20u64, 99u64]);
}

#[test]
fn duplicate_right_key_last_buffered_wins() {
    // The right key A recurs before being matched: the later row overwrites
    // the buffered one.
    let header = vec![s("j"), s("v")];
    let left = vec![row2("X", "100"), row2("A", "50")];
    let right = vec![row2("A", "1"), row2("A", "2"), row2("X", "5")];
    let lreader = new_reader(&header, "v", None, Some("j")).unwrap();
    let rreader = new_reader(&header, "v", None, Some("j")).unwrap();
    let deltas = run_dual(&lreader, &left, rreader, right, OOBRule::Saturate, 30000).unwrap();
    assert_eq!(deltas, vec![95u64, 48u64]);
}

#[test]
fn identical_runs_give_identical_output() {
    let header = header_ps();
    let rows = vec![row2("120", "100"), row2("150", "100"), row2("150", "100")];
    let a = single_file_to_hist(&header, &rows, "p", "s", 30000, 2, OOBRule::Drop).unwrap();
    let b = single_file_to_hist(&header, &rows, "p", "s", 30000, 2, OOBRule::Drop).unwrap();
    assert_eq!(a, b);
    assert!(!a.is_empty());
}

#[test]
fn unmatched_left_rows_and_keyless_rows_are_skipped() {
    let header = vec![s("j"), s("v")];
    // Left: one key with a match, one key without, one row with no key.
    let left = vec![row2("A", "50"), row2("Z", "70"), row2("", "30")];
    let right = vec![row2("", "9"), row2("A", "40")];
    let lreader = new_reader(&header, "v", None, Some("j")).unwrap();
    let rreader = new_reader(&header, "v", None, Some("j")).unwrap();
    let deltas = run_dual(&lreader, &left, rreader, right, OOBRule::Saturate, 30000).unwrap();
    assert_eq!(deltas, vec![10u64]);
}

#[test]
fn missing_primary_column_is_a_parse_error() {
    let header = header_ps();
    let rows = vec![row2("1", "2")];
    match single_file_to_hist(&header, &rows, "nosuch", "s", 30000, 2, OOBRule::Drop) {
        Err(Error::ParseIntError) => {},
        other => panic!("expected a parse error, got {:?}", other),
    }
}

#[test]
fn absent_secondary_column_is_fatal() {
    // A configured column absent from the header aborts the run before any
    // row is read.
    let header = header_ps();
    let rows = vec![row2("120", "100")];
    match single_file_to_hist(&header, &rows, "p", "nosuch", 30000, 2, OOBRule::Error) {
        Err(Error::ParseIntError) => {},
        other => panic!("expected a parse error, got {:?}", other),
    }
}

#[test]
fn absent_join_column_is_fatal() {
    let header = vec![s("j"), s("v")];
    let left = vec![row2("A", "50")];
    let right = vec![row2("A", "40")];
    match dual_file_to_hist(&header, &left, &header, right, "v", "v", "nosuch", 30000, 2,
        OOBRule::Saturate)
    {
        Err(Error::ParseIntError) => {},
        other => panic!("expected a parse error, got {:?}", other),
    }
}

#[test]
fn malformed_field_is_a_parse_error() {
    let header = header_ps();
    let rows = vec![row2("abc", "100")];
    match single_file_to_hist(&header, &rows, "p", "s", 30000, 2, OOBRule::Drop) {
        Err(Error::ParseIntError) => {},
        other => panic!("expected a parse error, got {:?}", other),
    }
    let rows2 = vec![row2("120", "1x0")];
    match single_file_to_hist(&header, &rows2, "p", "s", 30000, 2, OOBRule::Drop) {
        Err(Error::ParseIntError) => {},
        other => panic!("expected a parse error, got {:?}", other),
    }
}

#[test]
fn plus_sign_and_overflow_in_fields() {
    let header = header_ps();
    let rows = vec![row2("+120", "+100")];
    let reader = new_reader(&header, "p", Some("s"), None).unwrap();
    let deltas = run_single(&reader, &rows, OOBRule::Drop, 30000).unwrap();
    assert_eq!(deltas, vec![20u64]);
    // A value beyond u64 does not parse.
    let rows2 = vec![row2("18446744073709551616", "100")];
    match run_single(&reader, &rows2, OOBRule::Drop, 30000) {
        Err(Error::ParseIntError) => {},
        other => panic!("expected a parse error, got {:?}", other),
    }
    // u64::MAX itself parses.
    let rows3 = vec![row2("18446744073709551615", "18446744073709551615")];
    let deltas3 = run_single(&reader, &rows3, OOBRule::Drop, 30000).unwrap();
    assert_eq!(deltas3, vec![0u64]);
}

#[test]
fn bad_histogram_parameters_fail_before_rows() {
    let header = header_ps();
    let rows = vec![row2("abc", "def")];
    match single_file_to_hist(&header, &rows, "p", "s", 30000, 6, OOBRule::Drop) {
        Err(Error::HistError(_)) => {},
        other => panic!("expected a histogram parameter error, got {:?}", other),
    }
    match single_file_to_hist(&header, &rows, "p", "s", 1, 2, OOBRule::Drop) {
        Err(Error::HistError(_)) => {},
        other => panic!("expected a histogram parameter error, got {:?}", other),
    }
}

#[test]
fn config_requires_join_column_with_second_source() {
    let header = header_ps();
    let rows = vec![row2("1", "2")];
    let cfg = Config {
        fname: s("left.csv"),
        lhs_column: s("p"),
        rhs_column: s("s"),
        max_value: 30000,
        sigfigs: 2,
        rhs_fname: Some(s("right.csv")),
        join_column: None,
        oob: OOBRule::Error,
    };
    match cfg.to_hist(&header, &rows, None) {
        Err(Error::UserError(_)) => {},
        other => panic!("expected a configuration error, got {:?}", other),
    }
    let cfg2 = Config { rhs_fname: None, join_column: Some(s("j")), ..cfg };
    match cfg2.to_hist(&header, &rows, None) {
        Err(Error::UserError(_)) => {},
        other => panic!("expected a configuration error, got {:?}", other),
    }
}

#[test]
fn config_dispatches_single_and_dual() {
    let header = header_ps();
    let rows = vec![row2("120", "100")];
    let cfg = Config {
        fname: s("left.csv"),
        lhs_column: s("p"),
        rhs_column: s("s"),
        max_value: 30000,
        sigfigs: 2,
        rhs_fname: None,
        join_column: None,
        oob: OOBRule::Drop,
    };
    let out = cfg.to_hist(&header, &rows, None).unwrap();
    assert_eq!(decode_hist(&out).len(), 1);

    let jheader = vec![s("j"), s("v")];
    let left = vec![row2("A", "50")];
    let right = vec![row2("A", "40")];
    let dcfg = Config {
        fname: s("left.csv"),
        lhs_column: s("v"),
        rhs_column: s("v"),
        max_value: 30000,
        sigfigs: 2,
        rhs_fname: Some(s("right.csv")),
        join_column: Some(s("j")),
        oob: OOBRule::Saturate,
    };
    let out2 = dcfg.to_hist(&jheader, &left, Some((jheader.clone(), right))).unwrap();
    let hist = decode_hist(&out2);
    assert_eq!(hist.len(), 1);
    assert_eq!(hist.count_at(10), 1);
}
