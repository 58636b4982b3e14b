use polyresearch::comments::{
    literals, Observation, Outcome, ProtocolComment, Readings, ReleaseReason,
};
use polyresearch::config::{MetricDirection, ProtocolConfig};
use polyresearch::github::{CommentUser, Issue, IssueComment, PullRequest};
use polyresearch::metric::Metric;
use polyresearch::state::{
    count_queue_depth, parse_thesis_number_from_branch, select_metric, DecisionRecord,
    PullRequestState, RepositoryState, ThesisPhase, ThesisState,
};
use polyresearch::time::Timestamp;
use std::collections::HashMap;

const NOW: i64 = 1_776_000_000;

fn at(secs: i64) -> Timestamp {
    Timestamp {
        secs: NOW + secs,
        nanos: 0,
    }
}

fn metric(value: f64) -> Metric {
    Metric {
        bits: value.to_bits(),
        text: format!("{value:.4}"),
    }
}

fn issue(number: u64, title: &str) -> Issue {
    Issue {
        number,
        title: title.to_string(),
        body: None,
        state: "OPEN".to_string(),
        labels: vec![],
        created_at: at(-10_000),
        closed_at: None,
        author: None,
        url: None,
    }
}

fn thesis(number: u64, phase: ThesisPhase) -> ThesisState {
    ThesisState {
        issue: issue(number, "Example thesis"),
        phase,
        approved: false,
        maintainer_approved: false,
        maintainer_rejected: false,
        active_claims: vec![],
        releases: vec![],
        attempts: vec![],
        pull_requests: vec![],
        best_attempt_metric: None,
        invalidated_attempt_branches: vec![],
        findings: vec![],
    }
}

fn pull_request(number: u64, branch: &str, state: &str) -> PullRequest {
    PullRequest {
        number,
        title: "Candidate".to_string(),
        body: None,
        state: state.to_string(),
        head_ref_name: branch.to_string(),
        head_ref_oid: Some("deadbeef".to_string()),
        base_ref_name: Some("main".to_string()),
        created_at: at(-500),
        closed_at: None,
        merged_at: None,
        author: None,
        url: None,
        mergeable: None,
    }
}

fn posted(id: u64, login: &str, secs: i64, comment: &ProtocolComment) -> IssueComment {
    let body = comment.render();
    let found = literals(&body);
    IssueComment {
        id,
        user: CommentUser {
            login: login.to_string(),
        },
        created_at: at(secs),
        updated_at: None,
        readings: Readings {
            metric: found.metric.and_then(|m| m.parse().ok()).map(metric),
            baseline_metric: found.baseline_metric.and_then(|m| m.parse().ok()).map(metric),
            annotations: None,
        },
        body,
    }
}

fn said(id: u64, login: &str, secs: i64, body: &str) -> IssueComment {
    IssueComment {
        id,
        user: CommentUser {
            login: login.to_string(),
        },
        created_at: at(secs),
        updated_at: None,
        readings: Readings {
            metric: None,
            baseline_metric: None,
            annotations: None,
        },
        body: body.to_string(),
    }
}

fn approval(thesis: u64) -> ProtocolComment {
    ProtocolComment::Approval { thesis }
}

fn claim(thesis: u64, node: &str) -> ProtocolComment {
    ProtocolComment::Claim {
        thesis,
        node: node.to_string(),
    }
}

fn release(thesis: u64, node: &str, reason: ReleaseReason) -> ProtocolComment {
    ProtocolComment::Release {
        thesis,
        node: node.to_string(),
        reason,
    }
}

fn attempt(thesis: u64, branch: &str, value: f64) -> ProtocolComment {
    ProtocolComment::Attempt {
        thesis,
        branch: branch.to_string(),
        metric: metric(value),
        baseline_metric: Some(metric(0.5)),
        observation: Observation::Improved,
        summary: "better".to_string(),
        annotations: None,
    }
}

fn test_config() -> ProtocolConfig {
    ProtocolConfig {
        required_confirmations: 0,
        metric_tolerance: Some("0.01".to_string()),
        metric_direction: MetricDirection::HigherIsBetter,
        metric_bound: None,
        lead_github_login: Some("lead".to_string()),
        maintainer_github_login: Some("maintainer".to_string()),
        auto_approve: true,
        assignment_timeout: 24 * 60 * 60,
        review_timeout: 12 * 60 * 60,
        min_queue_depth: 5,
        max_queue_depth: Some(10),
        cli_version: None,
        default_branch: None,
    }
}

fn exhausted_comments() -> Vec<IssueComment> {
    vec![
        posted(1, "lead", -9_000, &approval(3)),
        posted(2, "alice", -8_000, &claim(3, "alice/n1")),
        posted(
            3,
            "alice",
            -7_000,
            &release(3, "alice/n1", ReleaseReason::NoImprovement),
        ),
    ]
}

fn claimed_comments() -> Vec<IssueComment> {
    vec![
        posted(1, "lead", -9_000, &approval(20)),
        posted(2, "alice", -8_000, &claim(20, "alice/n1")),
    ]
}

fn candidate(number: u64, state: &str, decision: Option<DecisionRecord>) -> PullRequestState {
    PullRequestState {
        pr: pull_request(number, "thesis/20-claimed-attempt-1", state),
        thesis_number: Some(20),
        policy_pass: true,
        maintainer_approved: false,
        maintainer_rejected: false,
        review_claims: vec![],
        reviews: vec![],
        decision,
        findings: vec![],
    }
}

#[test]
fn parses_thesis_number_from_branch_name() {
    assert_eq!(
        parse_thesis_number_from_branch("thesis/88-river-opt-attempt-3"),
        Some(88)
    );
    assert_eq!(parse_thesis_number_from_branch("feature/test"), None);
}

#[test]
fn phase_label_returns_correct_strings() {
    assert_eq!(thesis(999, ThesisPhase::Submitted).phase_label(), "submitted");
    assert_eq!(thesis(999, ThesisPhase::Approved).phase_label(), "approved");
    assert_eq!(thesis(999, ThesisPhase::Exhausted).phase_label(), "exhausted");
    assert_eq!(thesis(999, ThesisPhase::Claimed).phase_label(), "claimed");
    assert_eq!(
        thesis(999, ThesisPhase::CandidateSubmitted).phase_label(),
        "candidate_submitted"
    );
    assert_eq!(thesis(999, ThesisPhase::InReview).phase_label(), "in_review");
    assert_eq!(
        thesis(
            999,
            ThesisPhase::Resolved {
                outcome: Outcome::Accepted
            }
        )
        .phase_label(),
        "accepted"
    );
    assert_eq!(thesis(999, ThesisPhase::Rejected).phase_label(), "rejected");
}

#[test]
fn marks_no_improvement_releases_as_exhausted() {
    let thesis = ThesisState::derive(
        issue(3, "Exhausted"),
        exhausted_comments(),
        &vec![],
        &test_config(),
        at(0),
    )
    .unwrap();
    assert!(matches!(thesis.phase, ThesisPhase::Exhausted));
}

#[test]
fn queue_depth_excludes_exhausted_theses() {
    let config = test_config();
    let exhausted = ThesisState::derive(
        issue(3, "Exhausted"),
        exhausted_comments(),
        &vec![],
        &config,
        at(0),
    )
    .unwrap();
    let approved = ThesisState::derive(
        issue(3, "Exhausted"),
        exhausted_comments().into_iter().take(1).collect(),
        &vec![],
        &config,
        at(0),
    )
    .unwrap();

    assert!(matches!(approved.phase, ThesisPhase::Approved));
    assert_eq!(count_queue_depth(&vec![exhausted, approved], true), 1);
}

#[test]
fn queue_depth_counts_submitted_theses_when_auto_approve_is_disabled() {
    let submitted =
        ThesisState::derive(issue(3, "New"), vec![], &vec![], &test_config(), at(0)).unwrap();
    assert!(matches!(submitted.phase, ThesisPhase::Submitted));
    assert_eq!(count_queue_depth(&vec![submitted], false), 1);
}

#[test]
fn queue_depth_excludes_rejected_submitted_theses() {
    let mut thesis = thesis(3, ThesisPhase::Submitted);
    thesis.maintainer_rejected = true;
    assert_eq!(count_queue_depth(&vec![thesis], false), 0);
}

#[test]
fn maintainer_summary_prefers_open_pr_state() {
    let mut thesis = thesis(1, ThesisPhase::InReview);
    thesis.approved = true;
    thesis.maintainer_approved = true;
    thesis.pull_requests = vec![PullRequestState {
        pr: pull_request(2, "thesis/1-example-attempt-1", "OPEN"),
        thesis_number: Some(1),
        policy_pass: true,
        maintainer_approved: false,
        maintainer_rejected: true,
        review_claims: vec![],
        reviews: vec![],
        decision: None,
        findings: vec![],
    }];
    assert_eq!(thesis.maintainer_summary(false), "PR rejected");
}

#[test]
fn resolved_thesis_clears_active_claims() {
    let config = test_config();
    let claimed = ThesisState::derive(
        issue(20, "Claimed"),
        claimed_comments(),
        &vec![],
        &config,
        at(0),
    )
    .unwrap();
    assert!(matches!(claimed.phase, ThesisPhase::Claimed));
    assert_eq!(claimed.active_claims.len(), 1);

    let decided = candidate(
        50,
        "MERGED",
        Some(DecisionRecord {
            outcome: Outcome::Accepted,
            candidate_sha: "deadbeef".to_string(),
            confirmations: 0,
            created_at: at(0),
        }),
    );
    let resolved = ThesisState::derive(
        issue(20, "Claimed"),
        claimed_comments(),
        &vec![decided],
        &config,
        at(0),
    )
    .unwrap();
    assert!(matches!(
        resolved.phase,
        ThesisPhase::Resolved {
            outcome: Outcome::Accepted
        }
    ));
    assert!(
        resolved.active_claims.is_empty(),
        "active_claims should be empty on a resolved thesis, got: {:?}",
        resolved.active_claims
    );
}

#[test]
fn resolved_thesis_excluded_from_active_nodes() {
    let policy_pass = ProtocolComment::PolicyPass {
        thesis: 20,
        candidate_sha: "deadbeef".to_string(),
    };
    let decision = ProtocolComment::Decision {
        thesis: 20,
        candidate_sha: "deadbeef".to_string(),
        outcome: Outcome::Accepted,
        confirmations: 0,
    };
    let mut issue_comments = HashMap::new();
    issue_comments.insert(20u64, claimed_comments());
    let mut pr_comments = HashMap::new();
    pr_comments.insert(
        50u64,
        vec![
            posted(9000, "lead", -300, &policy_pass),
            posted(9001, "lead", 0, &decision),
        ],
    );
    let state = RepositoryState::derive_from_fetched(
        vec![issue(20, "Claimed")],
        vec![pull_request(50, "thesis/20-claimed-attempt-1", "MERGED")],
        &mut issue_comments,
        &mut pr_comments,
        &test_config(),
        at(0),
    )
    .unwrap();
    assert!(
        state.active_nodes.is_empty(),
        "active_nodes should not include nodes from resolved theses, got: {:?}",
        state.active_nodes
    );
    assert_eq!(state.pull_request_count, 1);
    assert!(state.get_thesis(20).is_some());
    assert!(state.get_thesis(21).is_none());
    assert!(state.get_pull_request(50).is_some());
    assert!(state.get_pull_request(51).is_none());
}

#[test]
fn claims_expire_after_the_assignment_timeout() {
    let config = test_config();
    let late = ThesisState::derive(
        issue(20, "Claimed"),
        claimed_comments(),
        &vec![],
        &config,
        at(24 * 60 * 60),
    )
    .unwrap();
    assert!(!matches!(late.phase, ThesisPhase::Claimed));
    assert!(!late.is_claimed_by("alice/n1"));
}

#[test]
fn the_best_attempt_follows_the_direction() {
    let comments = |config: &ProtocolConfig| {
        let mut list = claimed_comments();
        list.push(posted(3, "alice", -7_000, &attempt(20, "thesis/20-a", 0.7)));
        list.push(posted(4, "alice", -6_000, &attempt(20, "thesis/20-b", 0.9)));
        ThesisState::derive(issue(20, "Claimed"), list, &vec![], config, at(0)).unwrap()
    };
    let mut config = test_config();
    assert_eq!(comments(&config).best_attempt_metric, Some(metric(0.9)));
    config.metric_direction = MetricDirection::LowerIsBetter;
    let lower = comments(&config);
    assert_eq!(lower.best_attempt_metric, Some(metric(0.7)));
    assert_eq!(lower.attempts.len(), 2);
    assert_eq!(lower.activity_events().len(), 3);
}

#[test]
fn metrics_are_selected_by_direction() {
    let higher = select_metric(Some(metric(1.0)), metric(2.0), MetricDirection::HigherIsBetter);
    assert_eq!(higher, metric(2.0));
    let lower = select_metric(Some(metric(1.0)), metric(2.0), MetricDirection::LowerIsBetter);
    assert_eq!(lower, metric(1.0));
    let first = select_metric(None, metric(-1.5), MetricDirection::LowerIsBetter);
    assert_eq!(first, metric(-1.5));
}

#[test]
fn words_of_the_maintainer_count_where_approval_is_asked_for() {
    let mut config = test_config();
    config.auto_approve = false;
    let approved = ThesisState::derive(
        issue(4, "Asked"),
        vec![said(1, "maintainer", -100, "/approve")],
        &vec![],
        &config,
        at(0),
    )
    .unwrap();
    assert!(approved.maintainer_approved);
    let other = ThesisState::derive(
        issue(4, "Asked"),
        vec![said(1, "stranger", -100, "/approve")],
        &vec![],
        &config,
        at(0),
    )
    .unwrap();
    assert!(!other.maintainer_approved);
}

#[test]
fn lists_come_in_order() {
    let mut issue_comments = HashMap::new();
    issue_comments.insert(2u64, vec![]);
    let mut pr_comments = HashMap::new();
    let state = RepositoryState::derive_from_fetched(
        vec![issue(9, "Nine"), issue(2, "Two"), issue(5, "Five")],
        vec![],
        &mut issue_comments,
        &mut pr_comments,
        &test_config(),
        at(0),
    )
    .unwrap();
    let numbers: Vec<u64> = state.theses.iter().map(|t| t.issue.number).collect();
    assert_eq!(numbers, vec![2, 5, 9]);
}
