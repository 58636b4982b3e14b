use polyresearch::agent::{
    command_parts, find_harness, find_number, from_harness, from_logs, log_subprocess_failure,
    parse_prepare_key, poll, prereq_failure, recover_from_logs, shell_words, tail_str,
    thesis_generation_prompt, write_thesis_context, ExperimentResult, LogFile, Poll,
};
use polyresearch::metric::Metric;

fn metric(value: f64) -> Metric {
    Metric {
        bits: value.to_bits(),
        text: format!("{value:.4}"),
    }
}

fn log(name: &str, contents: &str) -> LogFile {
    LogFile {
        name: name.to_string(),
        contents: Some(contents.to_string()),
    }
}

#[test]
fn writes_thesis_context() {
    let content = write_thesis_context("Test thesis", "Body text", "attempt 1: failed");
    assert!(content.contains("# Thesis: Test thesis"));
    assert!(content.contains("Body text"));
    assert!(content.contains("attempt 1: failed"));
}

#[test]
fn recover_from_logs_finds_metric() {
    let literal = recover_from_logs(vec![log(
        "run-001.log",
        "starting...\nops_per_sec=42.5\ndone",
    )]);
    let value: f64 = literal.unwrap().parse().unwrap();
    let result = from_logs(metric(value));
    assert!((f64::from_bits(result.metric.bits) - 42.5).abs() < f64::EPSILON);
    assert!(result.baseline.is_none());
}

#[test]
fn recover_from_logs_finds_metric_line() {
    let literal = recover_from_logs(vec![log(
        "run-002.log",
        "setup done\nMETRIC=99.5\ncomplete",
    )]);
    let value: f64 = literal.unwrap().parse().unwrap();
    let recovered = from_logs(metric(value));
    assert!((f64::from_bits(recovered.metric.bits) - 99.5).abs() < f64::EPSILON);
    assert!(recovered.baseline.is_none());
}

#[test]
fn recover_returns_none_without_logs() {
    assert!(recover_from_logs(vec![]).is_none());
}

#[test]
fn recover_from_logs_returns_last_metric_not_max() {
    let literal = recover_from_logs(vec![
        log("run-001.log", "METRIC=100.0"),
        log("run-002.log", "METRIC=50.0"),
    ]);
    let value: f64 = literal.unwrap().parse().unwrap();
    assert!((value - 50.0).abs() < f64::EPSILON);
}

#[test]
fn recovery_orders_logs_by_name_and_skips_other_files() {
    let literal = recover_from_logs(vec![
        log("run-002.log", "METRIC=2"),
        log("notes.txt", "METRIC=7"),
        log("run-003.log", "nothing here"),
        LogFile {
            name: "run-004.log".to_string(),
            contents: None,
        },
        log("run-001.log", "METRIC=1"),
    ]);
    assert_eq!(literal, Some("2".to_string()));
}

#[test]
fn metric_lines_win_over_operation_counts() {
    assert_eq!(
        find_number("ops_per_sec=10\nMETRIC=3.5"),
        Some("3.5".to_string())
    );
    assert_eq!(find_number("x ops_per_sec=12. y"), Some("12.".to_string()));
    assert_eq!(find_number("a METRIC=3.5 b"), None);
    assert_eq!(find_number(""), None);
}

#[test]
fn shell_words_splits_simple_command() {
    assert_eq!(
        shell_words("agent -p --dangerously-skip-permissions"),
        vec!["agent", "-p", "--dangerously-skip-permissions"]
    );
}

#[test]
fn shell_words_handles_quoted_strings() {
    assert_eq!(
        shell_words(r#"echo "hello world" test"#),
        vec!["echo", "hello world", "test"]
    );
}

#[test]
fn shell_words_handles_single_quotes() {
    assert_eq!(
        shell_words("echo 'hello world' test"),
        vec!["echo", "hello world", "test"]
    );
}

#[test]
fn shell_words_keeps_all_inside_single_quotes() {
    assert_eq!(shell_words(r#"run 'a\b "c" d'"#), vec!["run", r#"a\b "c" d"#]);
    assert_eq!(shell_words(r#"a\ b "c\"d""#), vec!["a b", "c\"d"]);
    assert!(shell_words("   ''  ").is_empty());
}

#[test]
fn command_parts_rejects_an_empty_command() {
    assert_eq!(
        command_parts("run it").unwrap(),
        vec!["run".to_string(), "it".to_string()]
    );
    assert!(command_parts("  ").is_err());
}

#[test]
fn experiment_result_observation_checks() {
    let result = ExperimentResult {
        metric: metric(1.0),
        baseline: Some(metric(0.5)),
        observation: "no_improvement".to_string(),
        summary: "test".to_string(),
    };
    assert!(result.is_no_improvement());
    assert!(!result.is_improved());
    assert!(!result.is_crashed());
    assert!(!result.is_infra_failure());
}

#[test]
fn parse_prepare_key_finds_prereq() {
    let contents =
        "# Evaluation\n\neval_cores: 2\nprereq_command: npm run build\neval_memory_gb: 4.0\n";
    assert_eq!(
        parse_prepare_key(Some(contents), "prereq_command"),
        Some("npm run build".to_string())
    );
    assert_eq!(
        parse_prepare_key(Some(contents), "eval_cores"),
        Some("2".to_string())
    );
}

#[test]
fn parse_prepare_key_returns_none_for_missing_key() {
    assert_eq!(
        parse_prepare_key(Some("# Evaluation\n\neval_cores: 1\n"), "prereq_command"),
        None
    );
}

#[test]
fn parse_prepare_key_returns_none_for_empty_value() {
    assert_eq!(
        parse_prepare_key(Some("# Evaluation\n\nprereq_command:\n"), "prereq_command"),
        None
    );
}

#[test]
fn parse_prepare_key_returns_none_without_file() {
    assert_eq!(parse_prepare_key(None, "prereq_command"), None);
}

#[test]
fn poll_prefers_the_end_over_the_deadline() {
    assert_eq!(poll(true, true), Poll::Ended);
    assert_eq!(poll(false, true), Poll::Kill);
    assert_eq!(poll(false, false), Poll::Wait);
}

#[test]
fn tail_str_never_cuts_a_character() {
    assert_eq!(tail_str("abcdef", 3), "def");
    assert_eq!(tail_str("abc", 5), "abc");
    assert_eq!(tail_str("aéb", 2), "b");
}

#[test]
fn failures_are_reported_with_both_streams() {
    let lines = log_subprocess_failure("agent", Some("2"), "  \n", "broken\n");
    assert!(lines[0].contains("agent"));
    assert!(lines.iter().any(|l| l.contains("broken")));
    assert!(!lines.iter().any(|l| l.contains("stdout")));
}

#[test]
fn the_run_script_is_the_first_harness() {
    let spec = find_harness(true, true, true).unwrap();
    assert_eq!(spec.runner, "bash");
    assert!(find_harness(false, false, false).is_none());
    let node = find_harness(false, false, true).unwrap();
    assert_eq!(node.runner, "node");
    assert!(node.relative_path.ends_with("bench.mjs"));
}

#[test]
fn a_harness_needs_a_candidate_metric() {
    assert!(from_harness(None, Some(metric(1.0))).is_none());
    let r = from_harness(Some(metric(2.0)), Some(metric(1.0))).unwrap();
    assert_eq!(r.metric, metric(2.0));
    assert_eq!(r.baseline, Some(metric(1.0)));
}

#[test]
fn the_prompt_asks_for_the_count() {
    let prompt = thesis_generation_prompt("base text", 4);
    assert!(prompt.starts_with("base text"));
    assert!(prompt.contains('4'));
}

#[test]
fn a_failed_prerequisite_names_its_exit_code() {
    assert!(prereq_failure(Some("3")).contains('3'));
    assert_ne!(prereq_failure(Some("3")), prereq_failure(None));
}
