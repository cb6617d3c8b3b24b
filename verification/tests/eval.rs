use cochlea::compare::Verdict;
use cochlea::eval::{case_passes, count_passed, eval_case, eval_line, eval_succeeded, eval_summary, tier_name, EvalComparison};

#[test]
fn tolerance_decides_which_verdicts_pass() {
    assert!(case_passes(&Verdict::ByteIdentical, true));
    assert!(!case_passes(&Verdict::Tier2Equivalent, true));
    assert!(case_passes(&Verdict::Tier2Equivalent, false));
    assert!(!case_passes(&Verdict::Different { dimensions: vec!["key".to_string()] }, false));
}

#[test]
fn cases_render_as_aligned_table_lines() {
    let ok = eval_case("a.wav".to_string(), EvalComparison::Compared(Verdict::Tier2Equivalent), false);
    assert!(ok.passed);
    assert_eq!(eval_line(&ok), format!("{:>4}  {:<28}  {}", "ok", "a.wav", "tier2_equivalent"));
    let missing = eval_case("b.wav".to_string(), EvalComparison::MissingReference, false);
    assert_eq!(eval_line(&missing), format!("{:>4}  {:<28}  {}", "FAIL", "b.wav", "missing_reference"));
    let failed = eval_case("c.wav".to_string(), EvalComparison::Error("reading c.wav: bad".to_string()), true);
    assert!(!failed.passed);
    assert_eq!(failed.verdict, "error: reading c.wav: bad");
    let long = "x".repeat(40);
    let wide = eval_case(long.clone(), EvalComparison::Compared(Verdict::ByteIdentical), true);
    assert_eq!(eval_line(&wide), format!("  ok  {long}  byte_identical"));
}

#[test]
fn the_summary_and_the_exit_decision() {
    let cases = vec![
        eval_case("a".to_string(), EvalComparison::Compared(Verdict::ByteIdentical), false),
        eval_case("b".to_string(), EvalComparison::MissingReference, false),
    ];
    assert_eq!(count_passed(&cases), 1);
    assert_eq!(eval_summary(1, 2, false), "eval: 1/2 passed (tier-2 tolerance)");
    assert_eq!(eval_summary(3, 3, true), "eval: 3/3 passed (exact tolerance)");
    assert!(!eval_succeeded(1, 2));
    assert!(eval_succeeded(2, 2));
    assert!(!eval_succeeded(0, 0));
    assert_eq!(tier_name(true), "exact");
    assert_eq!(tier_name(false), "tier2");
}
