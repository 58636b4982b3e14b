use polyresearch::agent::{ExperimentResult, RecoveredMetric};
use polyresearch::comments::{Observation, ProtocolComment, ReleaseReason};
use polyresearch::config::MetricDirection;
use polyresearch::github::Issue;
use polyresearch::metric::Metric;
use polyresearch::state::{AttemptRecord, ThesisPhase, ThesisState};
use polyresearch::time::Timestamp;
use polyresearch::worker::{
    calculate_parallelism, classify_recovered, format_prior_attempts, parse_observation,
    ExperimentAction, ExperimentEvent, Stage, ThesisWorker, WorkerContext, WorkerOutcome,
};

const NOW: i64 = 1_776_000_000;

fn at(secs: i64) -> Timestamp {
    Timestamp {
        secs: NOW + secs,
        nanos: 0,
    }
}

fn metric(value: f64) -> Metric {
    Metric {
        bits: value.to_bits(),
        text: format!("{value:.4}"),
    }
}

fn issue(number: u64, title: &str) -> Issue {
    Issue {
        number,
        title: title.to_string(),
        body: None,
        state: "OPEN".to_string(),
        labels: vec![],
        created_at: at(-10_000),
        closed_at: None,
        author: None,
        url: None,
    }
}

fn thesis(number: u64, phase: ThesisPhase) -> ThesisState {
    ThesisState {
        issue: issue(number, "Example thesis"),
        phase,
        approved: false,
        maintainer_approved: false,
        maintainer_rejected: false,
        active_claims: vec![],
        releases: vec![],
        attempts: vec![],
        pull_requests: vec![],
        best_attempt_metric: None,
        invalidated_attempt_branches: vec![],
        findings: vec![],
    }
}

fn runs(
    cores: usize,
    memory: f64,
    live: f64,
    eval_cores: usize,
    eval_memory: f64,
    max: Option<usize>,
    work: usize,
) -> usize {
    let by_memory = if eval_memory > 0.0 {
        Some((memory.min(live) / eval_memory).floor() as usize)
    } else {
        None
    };
    calculate_parallelism(cores, eval_cores, by_memory, max, work)
}

fn recovered(value: f64, baseline: Option<f64>, summary: &str) -> RecoveredMetric {
    RecoveredMetric {
        metric: metric(value),
        baseline: baseline.map(metric),
        summary: summary.to_string(),
    }
}

fn worker() -> ThesisWorker {
    ThesisWorker::new(
        WorkerContext {
            issue_number: 7,
            thesis_title: "Try it".to_string(),
            thesis_body: "Body".to_string(),
            repo_root: "/repo".to_string(),
            node_id: "alice/n1".to_string(),
            agent_command: "agent".to_string(),
            default_branch: "main".to_string(),
            editable_globs: vec!["src/".to_string()],
            protected_globs: vec![],
            metric_direction: MetricDirection::HigherIsBetter,
        },
        String::new(),
    )
}

fn result(value: f64, observation: &str) -> ExperimentResult {
    ExperimentResult {
        metric: metric(value),
        baseline: Some(metric(0.5)),
        observation: observation.to_string(),
        summary: "sum".to_string(),
    }
}

#[test]
fn parallelism_respects_core_limit() {
    assert_eq!(runs(8, 64.0, 64.0, 2, 4.0, None, 10), 4);
}

#[test]
fn parallelism_respects_memory_limit() {
    assert_eq!(runs(16, 8.0, 8.0, 1, 4.0, None, 10), 2);
}

#[test]
fn parallelism_uses_live_memory() {
    assert_eq!(runs(16, 64.0, 4.0, 1, 4.0, None, 10), 1);
}

#[test]
fn parallelism_respects_max_parallel_flag() {
    assert_eq!(runs(16, 64.0, 64.0, 1, 1.0, Some(3), 10), 3);
}

#[test]
fn parallelism_respects_available_work() {
    assert_eq!(runs(16, 64.0, 64.0, 1, 1.0, None, 2), 2);
}

#[test]
fn parallelism_returns_zero_when_no_work() {
    assert_eq!(runs(16, 64.0, 64.0, 1, 1.0, None, 0), 0);
}

#[test]
fn parallelism_at_least_one_when_work_exists() {
    assert_eq!(runs(1, 0.5, 0.1, 4, 8.0, None, 1), 1);
}

#[test]
fn parse_observation_valid() {
    assert_eq!(parse_observation("improved").unwrap(), Observation::Improved);
    assert_eq!(parse_observation("no_improvement").unwrap(), Observation::NoImprovement);
    assert_eq!(parse_observation("crashed").unwrap(), Observation::Crashed);
    assert_eq!(parse_observation("infra_failure").unwrap(), Observation::InfraFailure);
}

#[test]
fn parse_observation_invalid() {
    assert!(parse_observation("unknown").is_err());
}

#[test]
fn format_prior_attempts_empty() {
    let mut t = thesis(1, ThesisPhase::Approved);
    t.approved = true;
    assert!(format_prior_attempts(&t).is_empty());
}

#[test]
fn prior_attempts_are_listed_one_by_one() {
    let mut t = thesis(1, ThesisPhase::Approved);
    t.attempts = vec![AttemptRecord {
        thesis: 1,
        node: "alice/n1".to_string(),
        branch: "thesis/1-x".to_string(),
        metric: metric(0.25),
        baseline_metric: None,
        observation: Observation::NoImprovement,
        summary: "slower".to_string(),
        author: "alice".to_string(),
        created_at: at(0),
        comment_id: 1,
    }];
    let text = format_prior_attempts(&t);
    assert!(text.contains("thesis/1-x"));
    assert!(text.contains("0.2500"));
    assert!(text.contains("slower"));
}

#[test]
fn classify_recovered_higher_is_better_improved() {
    let result = classify_recovered(
        recovered(0.95, Some(0.90), "test"),
        MetricDirection::HigherIsBetter,
    );
    assert!(result.is_improved());
    assert!((f64::from_bits(result.baseline.unwrap().bits) - 0.90).abs() < f64::EPSILON);
}

#[test]
fn classify_recovered_lower_is_better_improved() {
    let result = classify_recovered(
        recovered(0.85, Some(0.90), "test"),
        MetricDirection::LowerIsBetter,
    );
    assert!(result.is_improved());
}

#[test]
fn classify_recovered_lower_is_better_regression() {
    let result = classify_recovered(
        recovered(0.95, Some(0.90), "test"),
        MetricDirection::LowerIsBetter,
    );
    assert!(result.is_no_improvement());
}

#[test]
fn classify_recovered_without_baseline_is_not_improved() {
    let higher = classify_recovered(
        recovered(0.95, None, "from logs"),
        MetricDirection::HigherIsBetter,
    );
    assert!(higher.is_no_improvement());
    assert!(higher.baseline.is_none());

    let lower = classify_recovered(
        recovered(0.95, None, "from logs"),
        MetricDirection::LowerIsBetter,
    );
    assert!(lower.is_no_improvement());
    assert!(lower.baseline.is_none());
}

#[test]
fn classify_recovered_equal_metric_is_not_improved() {
    let result = classify_recovered(
        recovered(0.90, Some(0.90), "test"),
        MetricDirection::HigherIsBetter,
    );
    assert!(result.is_no_improvement());
}

#[test]
fn a_worker_has_a_branch_of_its_thesis() {
    let w = worker();
    assert_eq!(w.issue_number(), 7);
    assert_eq!(w.branch(), "thesis/7-try-it");
    assert!(w.worktree_path().starts_with("/repo/"));
    assert!(w.thesis_context().contains("# Thesis: Try it"));
}

#[test]
fn an_experiment_falls_back_to_logs_and_the_harness() {
    let w = worker();
    let next = w.run_experiment(ExperimentAction::RunAgent, ExperimentEvent::Nothing);
    assert!(matches!(next, ExperimentAction::ReadLogs));
    let next = w.run_experiment(next, ExperimentEvent::Nothing);
    assert!(matches!(next, ExperimentAction::MakeBaseline));
    let next = w.run_experiment(next, ExperimentEvent::Nothing);
    assert!(matches!(next, ExperimentAction::RunHarness));
    let next = w.run_experiment(
        next,
        ExperimentEvent::Recovered {
            metric: recovered(0.9, Some(0.8), "harness"),
        },
    );
    match next {
        ExperimentAction::Finish { result: Some(r) } => assert!(r.is_improved()),
        other => panic!("unexpected action {other:?}"),
    }
}

#[test]
fn a_reported_result_ends_the_experiment() {
    let next = worker().run_experiment(
        ExperimentAction::RunAgent,
        ExperimentEvent::Reported {
            result: result(0.9, "improved"),
        },
    );
    assert!(matches!(next, ExperimentAction::Finish { result: Some(_) }));
}

#[test]
fn improvements_are_published() {
    let w = worker();
    let plan = w.record(&result(0.9, "improved")).unwrap();
    assert!(matches!(plan.comment, ProtocolComment::Attempt { thesis: 7, .. }));
    assert!(plan.publication.is_some());
    let plan = w.record(&result(0.4, "no_improvement")).unwrap();
    assert!(plan.publication.is_none());
    assert!(w.record(&result(0.4, "odd")).is_err());
}

#[test]
fn failures_give_the_claim_back() {
    let w = worker();
    let end = w.execute(Stage::NoResult);
    assert_eq!(end.release, Some(ReleaseReason::InfraFailure));
    assert!(matches!(end.outcome, WorkerOutcome::Failed { issue_number: 7, .. }));
    let end = w.execute(Stage::Recorded {
        result: result(0.9, "improved"),
    });
    assert_eq!(end.release, None);
    assert!(matches!(end.outcome, WorkerOutcome::Improved { .. }));
    assert_eq!(end.outcome.issue_number(), 7);
}
