use polyresearch::comments::{
    literals, Observation, Outcome, ProtocolComment, Readings, ReleaseReason,
};
use polyresearch::config::{MetricDirection, ProtocolConfig};
use polyresearch::github::{CommentUser, Issue, IssueComment, PullRequest};
use polyresearch::metric::Metric;
use polyresearch::time::Timestamp;
use polyresearch::validation::{
    validate_issue, validate_pull_request, AuditSeverity, IssueValidation, ProtocolEnvelope,
    PullRequestValidation,
};

const NOW: i64 = 1_776_000_000;

fn at(secs: i64) -> Timestamp {
    Timestamp {
        secs: NOW + secs,
        nanos: 0,
    }
}

fn metric(value: f64) -> Metric {
    Metric {
        bits: value.to_bits(),
        text: format!("{value:.4}"),
    }
}

fn issue(number: u64, title: &str) -> Issue {
    Issue {
        number,
        title: title.to_string(),
        body: None,
        state: "OPEN".to_string(),
        labels: vec![],
        created_at: at(-10_000),
        closed_at: None,
        author: None,
        url: None,
    }
}

fn pull_request(number: u64, branch: &str, state: &str) -> PullRequest {
    PullRequest {
        number,
        title: "Candidate".to_string(),
        body: None,
        state: state.to_string(),
        head_ref_name: branch.to_string(),
        head_ref_oid: Some("deadbeef".to_string()),
        base_ref_name: Some("main".to_string()),
        created_at: at(-500),
        closed_at: None,
        merged_at: None,
        author: None,
        url: None,
        mergeable: None,
    }
}

fn posted(id: u64, login: &str, secs: i64, comment: &ProtocolComment) -> IssueComment {
    let body = comment.render();
    let found = literals(&body);
    IssueComment {
        id,
        user: CommentUser {
            login: login.to_string(),
        },
        created_at: at(secs),
        updated_at: None,
        readings: Readings {
            metric: found.metric.and_then(|m| m.parse().ok()).map(metric),
            baseline_metric: found.baseline_metric.and_then(|m| m.parse().ok()).map(metric),
            annotations: None,
        },
        body,
    }
}

fn said(id: u64, login: &str, secs: i64, body: &str) -> IssueComment {
    IssueComment {
        id,
        user: CommentUser {
            login: login.to_string(),
        },
        created_at: at(secs),
        updated_at: None,
        readings: Readings {
            metric: None,
            baseline_metric: None,
            annotations: None,
        },
        body: body.to_string(),
    }
}

fn approval(thesis: u64) -> ProtocolComment {
    ProtocolComment::Approval { thesis }
}

fn claim(thesis: u64, node: &str) -> ProtocolComment {
    ProtocolComment::Claim {
        thesis,
        node: node.to_string(),
    }
}

fn release(thesis: u64, node: &str, reason: ReleaseReason) -> ProtocolComment {
    ProtocolComment::Release {
        thesis,
        node: node.to_string(),
        reason,
    }
}

fn attempt(thesis: u64, branch: &str, value: f64) -> ProtocolComment {
    ProtocolComment::Attempt {
        thesis,
        branch: branch.to_string(),
        metric: metric(value),
        baseline_metric: Some(metric(0.5)),
        observation: Observation::Improved,
        summary: "better".to_string(),
        annotations: None,
    }
}

fn test_config() -> ProtocolConfig {
    ProtocolConfig {
        required_confirmations: 0,
        metric_tolerance: Some("0.01".to_string()),
        metric_direction: MetricDirection::HigherIsBetter,
        metric_bound: None,
        lead_github_login: Some("lead".to_string()),
        maintainer_github_login: Some("maintainer".to_string()),
        auto_approve: true,
        assignment_timeout: 24 * 60 * 60,
        review_timeout: 12 * 60 * 60,
        min_queue_depth: 5,
        max_queue_depth: Some(10),
        cli_version: None,
        default_branch: None,
    }
}

fn envelopes(comments: Vec<IssueComment>) -> Vec<ProtocolEnvelope> {
    comments
        .into_iter()
        .map(|c| ProtocolEnvelope::from_issue_comment(c).unwrap())
        .collect()
}

fn judge(comments: Vec<IssueComment>) -> IssueValidation {
    validate_issue(
        &issue(7, "Thesis"),
        envelopes(comments),
        &test_config(),
        None,
        at(0),
    )
}

fn judge_candidate(comments: Vec<IssueComment>) -> PullRequestValidation {
    validate_pull_request(
        &pull_request(70, "thesis/7-x", "OPEN"),
        envelopes(comments),
        &test_config(),
    )
}

fn policy_pass() -> ProtocolComment {
    ProtocolComment::PolicyPass {
        thesis: 7,
        candidate_sha: "deadbeef".to_string(),
    }
}

fn decision(outcome: Outcome) -> ProtocolComment {
    ProtocolComment::Decision {
        thesis: 7,
        candidate_sha: "deadbeef".to_string(),
        outcome,
        confirmations: 0,
    }
}

#[test]
fn ignores_duplicate_raw_claim_comment() {
    let validation = judge(vec![
        posted(1, "lead", -900, &approval(7)),
        posted(2, "alice", -800, &claim(7, "node-a")),
        posted(3, "bob", -700, &claim(7, "node-b")),
    ]);
    assert_eq!(validation.active_claims.len(), 1);
    assert_eq!(validation.active_claims[0].node, "node-a");
    assert_eq!(validation.findings.len(), 1);
    assert!(validation.findings[0]
        .message
        .contains("claim posted while another valid claim was still active"));
}

#[test]
fn ignores_non_lead_decision_comment() {
    let validation = judge_candidate(vec![
        posted(1, "lead", -900, &policy_pass()),
        posted(2, "eve", -800, &decision(Outcome::Accepted)),
    ]);
    assert!(validation.policy_pass);
    assert!(validation.decision.is_none());
    assert_eq!(validation.findings.len(), 1);
    assert!(validation.findings[0]
        .message
        .contains("decision comment from non-lead actor"));
}

#[test]
fn ignores_attempt_posted_after_issue_closure() {
    let mut closed = issue(7, "Thesis");
    closed.state = "CLOSED".to_string();
    closed.closed_at = Some(at(-500));
    let validation = validate_issue(
        &closed,
        envelopes(vec![
            posted(1, "lead", -900, &approval(7)),
            posted(2, "alice", -800, &claim(7, "node-a")),
            posted(3, "alice", -400, &attempt(7, "thesis/7-x", 0.9)),
        ]),
        &test_config(),
        None,
        at(0),
    );
    assert!(validation.attempts.is_empty());
    assert_eq!(validation.findings.len(), 1);
    assert!(validation.findings[0]
        .message
        .contains("attempt posted after the thesis was already closed or decided"));
}

#[test]
fn acknowledged_invalid_comment_is_suppressed_from_findings() {
    let note = ProtocolComment::AdminNote {
        action: "acknowledge_invalid".to_string(),
        target: "issue #7".to_string(),
        note: "posted too early".to_string(),
        related_comment_id: Some(1),
    };
    let validation = judge(vec![
        posted(1, "alice", -950, &claim(7, "node-a")),
        posted(2, "lead", -900, &approval(7)),
        posted(3, "lead", -800, &note),
    ]);
    assert!(validation.approved);
    assert!(validation.findings.is_empty());
}

#[test]
fn the_order_of_arrival_does_not_matter() {
    let forward = judge(vec![
        posted(1, "lead", -900, &approval(7)),
        posted(2, "alice", -800, &claim(7, "node-a")),
    ]);
    let backward = judge(vec![
        posted(2, "alice", -800, &claim(7, "node-a")),
        posted(1, "lead", -900, &approval(7)),
    ]);
    assert_eq!(forward.active_claims.len(), 1);
    assert_eq!(backward.active_claims.len(), 1);
    assert!(backward.findings.is_empty());
}

#[test]
fn only_the_lead_approves() {
    let validation = judge(vec![posted(1, "eve", -900, &approval(7))]);
    assert!(!validation.approved);
    assert_eq!(validation.findings[0].severity, AuditSeverity::Invalid);
    assert_eq!(validation.findings[0].comment_id, Some(1));
}

#[test]
fn releases_end_the_claim_of_their_node() {
    let validation = judge(vec![
        posted(1, "lead", -900, &approval(7)),
        posted(2, "alice", -800, &claim(7, "node-a")),
        posted(
            3,
            "alice",
            -700,
            &release(7, "node-a", ReleaseReason::InfraFailure),
        ),
        posted(4, "bob", -600, &claim(7, "node-b")),
    ]);
    assert_eq!(validation.releases.len(), 1);
    assert_eq!(validation.active_claims[0].node, "node-b");
    assert!(validation.findings.is_empty());
}

#[test]
fn attempts_carry_the_node_of_the_claim() {
    let validation = judge(vec![
        posted(1, "lead", -900, &approval(7)),
        posted(2, "alice", -800, &claim(7, "node-a")),
        posted(3, "alice", -700, &attempt(7, "thesis/7-x", 0.9)),
        posted(4, "bob", -600, &attempt(7, "thesis/7-y", 0.9)),
    ]);
    assert_eq!(validation.attempts.len(), 1);
    assert_eq!(validation.attempts[0].node, "node-a");
    assert_eq!(validation.attempts[0].comment_id, 3);
    assert_eq!(validation.findings.len(), 1);
}

#[test]
fn a_decision_is_final() {
    let validation = judge_candidate(vec![
        posted(1, "lead", -900, &policy_pass()),
        posted(2, "lead", -800, &decision(Outcome::Stale)),
        posted(3, "lead", -700, &decision(Outcome::Accepted)),
    ]);
    assert_eq!(validation.decision.unwrap().outcome, Outcome::Stale);
    assert_eq!(validation.findings[0].severity, AuditSeverity::Suspicious);
}

#[test]
fn reviews_need_a_claim_of_their_author() {
    let review = ProtocolComment::Review {
        thesis: 7,
        candidate_sha: "deadbeef".to_string(),
        base_sha: "cafe".to_string(),
        node: "node-b".to_string(),
        metric: metric(0.8),
        baseline_metric: metric(0.7),
        observation: Observation::Improved,
        env_sha: None,
        timestamp: at(-600),
    };
    let review_claim = ProtocolComment::ReviewClaim {
        thesis: 7,
        node: "node-b".to_string(),
    };
    let good = judge_candidate(vec![
        posted(1, "lead", -900, &policy_pass()),
        posted(2, "bob", -800, &review_claim),
        posted(3, "bob", -600, &review),
    ]);
    assert_eq!(good.reviews.len(), 1);
    assert_eq!(good.thesis_number, Some(7));
    let bad = judge_candidate(vec![
        posted(1, "lead", -900, &policy_pass()),
        posted(3, "bob", -600, &review),
    ]);
    assert!(bad.reviews.is_empty());
    assert_eq!(bad.findings.len(), 1);
}

#[test]
fn plain_talk_is_no_protocol() {
    let validation = judge(vec![said(1, "eve", -900, "what a nice idea")]);
    assert!(validation.findings.is_empty());
}
