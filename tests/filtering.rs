use htseq_filter::accumulator::SampleTotals;
use htseq_filter::filter::{evaluate, first_rejection, FilterConfig, Rejection};
use htseq_filter::pass::{CountFilter, CounterOverflow, LineOutcome, OutputPolicy};
use htseq_filter::record::{parse_row, Row};

fn no_filters() -> FilterConfig {
    FilterConfig {
        min_count: None,
        min_expressed: None,
        max_zero: None,
        filter_identical: false,
        expression_threshold: 1,
    }
}

fn run_lines(cfg: FilterConfig, separate: bool, summary: bool, header: &str, lines: &[&str]) -> (CountFilter, Vec<String>) {
    let mut f = CountFilter::new(cfg, OutputPolicy::for_destination(separate), summary, header);
    let mut main = vec![header.to_string()];
    for l in lines {
        let outcome = f.process_line(l).expect("no overflow");
        if outcome.is_written_to_main() {
            main.push(l.to_string());
        }
    }
    (f, main)
}

#[test]
fn identical_filter_example() {
    let cfg = FilterConfig { filter_identical: true, ..no_filters() };
    let (f, main) = run_lines(cfg, true, false, "gene\tA\tB", &["g1\t5\t0", "g2\t3\t3", "__no_feature\t10\t20"]);
    assert_eq!(main, vec!["gene\tA\tB".to_string(), "g1\t5\t0".to_string()]);
    assert_eq!(f.total_genes(), 2);
    assert_eq!(f.passed_genes(), 1);
    assert_eq!(f.metafeature_count(), 1);
    assert_eq!(
        f.report_lines(),
        vec!["feature\tA\tB".to_string(), "no_feature\t10\t20".to_string()]
    );
}

#[test]
fn min_count_inclusive_example() {
    let cfg = FilterConfig { min_count: Some(4), ..no_filters() };
    let (f, main) = run_lines(cfg, true, false, "gene\tA\tB", &["g1\t5\t0", "g2\t3\t3", "__no_feature\t10\t20"]);
    assert_eq!(main.len(), 3);
    assert_eq!(f.passed_genes(), 2);
    let cfg = FilterConfig { min_count: Some(6), ..no_filters() };
    assert!(evaluate(&cfg, &vec![3, 3]));
    let cfg = FilterConfig { min_count: Some(7), ..no_filters() };
    assert!(!evaluate(&cfg, &vec![3, 3]));
}

#[test]
fn malformed_row_is_skipped() {
    let lines_bad = ["g1\t5\t0", "g2\tx\t3", "g3\t1\t2"];
    let lines_good = ["g1\t5\t0", "g3\t1\t2"];
    let (fb, mb) = run_lines(no_filters(), false, true, "gene\tA\tB", &lines_bad);
    let (fg, mg) = run_lines(no_filters(), false, true, "gene\tA\tB", &lines_good);
    assert_eq!(mb, mg);
    assert_eq!(fb.total_genes(), 2);
    assert_eq!(fb.passed_genes(), 2);
    assert_eq!(fb.sample_totals(), fg.sample_totals());
    assert_eq!(fb.report_lines(), fg.report_lines());
    let mut f = CountFilter::new(no_filters(), OutputPolicy::for_destination(false), false, "gene\tA\tB");
    assert_eq!(f.process_line("g2\tx\t3"), Ok(LineOutcome::Malformed));
    assert_eq!(f.process_line("g2\t1"), Ok(LineOutcome::Malformed));
    assert_eq!(f.process_line("g2\t1\t2\t3"), Ok(LineOutcome::Malformed));
    assert_eq!(f.process_line("g2\t1\t"), Ok(LineOutcome::Malformed));
    assert_eq!(f.process_line("g2\t-1\t2"), Ok(LineOutcome::Malformed));
    assert_eq!(f.total_genes(), 0);
}

#[test]
fn no_predicates_keep_everything_but_malformed() {
    let lines = ["g1\t0\t0", "bad\t1", "__meta\t1\t1", "g2\t7\t7"];
    let (f, main) = run_lines(no_filters(), false, false, "gene\tA\tB", &lines);
    assert_eq!(f.passed_genes(), f.total_genes());
    assert_eq!(main, vec!["gene\tA\tB", "g1\t0\t0", "__meta\t1\t1", "g2\t7\t7"]);
}

#[test]
fn identical_filter_removes_all_zero_row() {
    let cfg = FilterConfig { filter_identical: true, ..no_filters() };
    assert!(!evaluate(&cfg, &vec![0, 0, 0]));
    assert!(!evaluate(&cfg, &vec![4, 4]));
    assert!(evaluate(&cfg, &vec![4, 5]));
    assert!(evaluate(&no_filters(), &vec![0, 0, 0]));
}

#[test]
fn rerun_on_main_output_is_identical() {
    let cfg = FilterConfig { min_count: Some(3), filter_identical: true, ..no_filters() };
    let lines = ["g1\t5\t0", "g2\t3\t3", "__x\t1\t2", "g3\t1\t1", "g4\t2\t9", "oops"];
    let (_, main1) = run_lines(cfg, false, false, "gene\tA\tB", &lines);
    let rest: Vec<&str> = main1[1..].iter().map(|s| s.as_str()).collect();
    let (_, main2) = run_lines(cfg, false, false, &main1[0], &rest);
    assert_eq!(main1, main2);
}

#[test]
fn aggregates_and_summary_rows() {
    let cfg = FilterConfig { min_count: Some(5), expression_threshold: 2, ..no_filters() };
    let (f, _) = run_lines(cfg, false, true, "gene\tA\tB", &["g1\t5\t1", "g2\t1\t1", "__a\t4\t4"]);
    let t = f.sample_totals();
    assert_eq!(t[0], SampleTotals { total_count: 6, passed_count: 5, total_expressed: 1, passed_expressed: 1 });
    assert_eq!(t[1], SampleTotals { total_count: 2, passed_count: 1, total_expressed: 0, passed_expressed: 0 });
    for s in &t {
        assert!(s.passed_count <= s.total_count);
        assert!(s.passed_expressed <= s.total_expressed);
    }
    assert_eq!(
        f.report_lines(),
        vec![
            "__total_count\t6\t2".to_string(),
            "__passed_count\t5\t1".to_string(),
            "__total_expressed\t1\t0".to_string(),
            "__passed_expressed\t1\t0".to_string(),
        ]
    );
}

#[test]
fn separate_report_strips_markers_and_lists_summary_last() {
    let (f, main) = run_lines(no_filters(), true, true, "gene\tS1", &["__ambiguous\t12", "g\t10"]);
    assert_eq!(main, vec!["gene\tS1", "g\t10"]);
    assert_eq!(
        f.report_lines(),
        vec![
            "feature\tS1".to_string(),
            "ambiguous\t12".to_string(),
            "total_count\t10".to_string(),
            "passed_count\t10".to_string(),
            "total_expressed\t1".to_string(),
            "passed_expressed\t1".to_string(),
        ]
    );
}

#[test]
fn empty_input_gives_zero_summary() {
    let f = CountFilter::new(no_filters(), OutputPolicy::for_destination(true), true, "gene\tA\tB");
    assert_eq!(f.total_genes(), 0);
    assert_eq!(f.report_lines()[1], "total_count\t0\t0");
}

#[test]
fn min_expressed_and_max_zero() {
    let cfg = FilterConfig { min_expressed: Some(2), expression_threshold: 3, ..no_filters() };
    assert!(evaluate(&cfg, &vec![3, 4, 0]));
    assert!(!evaluate(&cfg, &vec![3, 2, 0]));
    let cfg = FilterConfig { max_zero: Some(1), ..no_filters() };
    assert!(evaluate(&cfg, &vec![0, 4, 1]));
    assert!(!evaluate(&cfg, &vec![0, 4, 0]));
}

#[test]
fn counter_overflow_is_reported() {
    let mut f = CountFilter::new(no_filters(), OutputPolicy::for_destination(true), false, "gene\tA");
    assert_eq!(f.process_line("g1\t18446744073709551615"), Ok(LineOutcome::Retained));
    assert_eq!(f.process_line("g2\t1"), Err(CounterOverflow {}));
    assert_eq!(f.total_genes(), 1);
    assert_eq!(f.process_line("g3\t0"), Ok(LineOutcome::Retained));
}

#[test]
fn parses_rows() {
    match parse_row("g\t+7\t0012", 2) {
        Row::Ordinary { id, counts } => {
            assert_eq!(id, "g");
            assert_eq!(counts, vec![7, 12]);
        }
        _ => panic!("expected an ordinary row"),
    }
    match parse_row("__meta\tnot\ta number", 2) {
        Row::Metafeature { id, values } => {
            assert_eq!(id, "__meta");
            assert_eq!(values, "not\ta number");
        }
        _ => panic!("expected a metafeature row"),
    }
    assert!(matches!(parse_row("g\t18446744073709551616", 1), Row::Malformed));
    assert!(matches!(parse_row("g\t", 1), Row::Malformed));
    assert!(matches!(parse_row("g\t+", 1), Row::Malformed));
    assert!(matches!(parse_row("g", 0), Row::Ordinary { .. }));
    assert!(matches!(parse_row("_g\t1", 1), Row::Ordinary { .. }));
}

#[test]
fn first_failing_predicate_is_reported() {
    let cfg = FilterConfig {
        min_count: Some(10),
        min_expressed: Some(2),
        max_zero: Some(0),
        filter_identical: true,
        expression_threshold: 1,
    };
    assert_eq!(first_rejection(&cfg, &vec![0, 0]), Some(Rejection::MinCount));
    assert_eq!(first_rejection(&cfg, &vec![20, 0]), Some(Rejection::MinExpressed));
    let cfg2 = FilterConfig { min_expressed: Some(1), ..cfg };
    assert_eq!(first_rejection(&cfg2, &vec![20, 0]), Some(Rejection::MaxZero));
    assert_eq!(first_rejection(&cfg2, &vec![6, 6]), Some(Rejection::Identical));
    assert_eq!(first_rejection(&cfg2, &vec![6, 7]), None);
    let mut f = CountFilter::new(cfg2, OutputPolicy::for_destination(false), false, "gene\tA\tB");
    assert_eq!(f.process_line("g\t6\t6"), Ok(LineOutcome::Filtered(Rejection::Identical)));
    assert_eq!(f.process_line("g\t6\t7"), Ok(LineOutcome::Retained));
    assert_eq!(f.passed_genes(), 1);
    assert_eq!(f.total_genes(), 2);
}
