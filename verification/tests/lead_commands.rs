use polyresearch::cli::{NodeOverrides, ReviewArgs};
use polyresearch::commands::bootstrap::{
    after_access, clone_step, ensure_forked, fork_args, fork_url, has_overrides, has_push_access,
    login_in, normalize_program_md, program_text, replace_goal_section, repo_name_from_url,
    CloneStep,
};
use polyresearch::commands::decide::{
    confirmations, count_prior_rejections, decide_with_peer_review, decide_without_peer_review,
    execute_decision, is_pr_decidable, maintainer_step, metric_range, release_after_rejections,
    Decision, DecisionAction, DecisionEvent,
};
use polyresearch::commands::init::{capacity, issues_notice, InitOutput};
use polyresearch::commands::lead::{
    agent_command, decide_ready_prs, LeadAction, LeadEvent, LeadPlan, SweepAction,
};
use polyresearch::commands::pace::{
    build_output, count_attempts_since, format_wrapped_policy, last_activity, wrap_text,
};
use polyresearch::commands::policy_check::{
    after_check, require_checkable_pr, PolicyCheckOutput, PolicyStep,
};
use polyresearch::commands::review::{
    compute_env_sha, record, reviewed_sha, to_hex, FileEntry,
};
use polyresearch::commands::submit::{
    candidate_body, candidate_title, diff_ref, ensure_submittable, submittable_attempt,
};
use polyresearch::commands::sync::{
    after_pull, after_push, ensure_on_default_branch, is_non_fast_forward_push_error,
    local_sync_commits_only, pull_args, pull_default_branch, restarted, retry_notice, PullAction,
    PullOutcome, PushAction, SyncOutput, SYNC_COMMIT_MESSAGE,
};
use polyresearch::comments::{Observation, Outcome, ProtocolComment};
use polyresearch::config::{NodeConfig, ProtocolConfig};
use polyresearch::editable_surface::EditableSurface;
use polyresearch::github::{
    Issue, PullRequest, RateLimitBucket, RateLimitResources, RateLimitStatus,
};
use polyresearch::ledger::{Ledger, LedgerRow};
use polyresearch::metric::Metric;
use polyresearch::state::{
    AttemptRecord, ClaimRecord, DecisionRecord, PullRequestState, RepositoryState, ReviewRecord,
    ThesisPhase, ThesisState,
};
use polyresearch::time::Timestamp;

const NOW: i64 = 1_776_000_000;

fn at(secs: i64) -> Timestamp {
    Timestamp {
        secs: NOW + secs,
        nanos: 0,
    }
}

fn metric(value: f64) -> Metric {
    Metric {
        bits: value.to_bits(),
        text: format!("{value:.4}"),
    }
}

fn issue(number: u64, title: &str) -> Issue {
    Issue {
        number,
        title: title.to_string(),
        body: None,
        state: "OPEN".to_string(),
        labels: vec![],
        created_at: at(-10_000),
        closed_at: None,
        author: None,
        url: None,
    }
}

fn thesis(number: u64, phase: ThesisPhase) -> ThesisState {
    ThesisState {
        issue: issue(number, "Example thesis"),
        phase,
        approved: false,
        maintainer_approved: false,
        maintainer_rejected: false,
        active_claims: vec![],
        releases: vec![],
        attempts: vec![],
        pull_requests: vec![],
        best_attempt_metric: None,
        invalidated_attempt_branches: vec![],
        findings: vec![],
    }
}

fn pull_request(number: u64, branch: &str, state: &str) -> PullRequest {
    PullRequest {
        number,
        title: "Candidate".to_string(),
        body: None,
        state: state.to_string(),
        head_ref_name: branch.to_string(),
        head_ref_oid: Some("deadbeef".to_string()),
        base_ref_name: Some("main".to_string()),
        created_at: at(-500),
        closed_at: None,
        merged_at: None,
        author: None,
        url: None,
        mergeable: None,
    }
}

fn repository(theses: Vec<ThesisState>) -> RepositoryState {
    RepositoryState {
        theses,
        pull_request_count: 0,
        active_nodes: vec![],
        queue_depth: 1,
        current_best_accepted_metric: None,
        invalidated_attempt_branches: vec![],
        recent_events: vec![],
        audit_findings: vec![],
    }
}

fn config() -> ProtocolConfig {
    ProtocolConfig {
        lead_github_login: Some("lead".to_string()),
        maintainer_github_login: Some("maintainer".to_string()),
        metric_tolerance: Some("0.01".to_string()),
        max_queue_depth: Some(10),
        ..ProtocolConfig::default()
    }
}

fn empty_ledger() -> Ledger {
    Ledger::load("/repo", None)
}

fn claimed(number: u64, node: &str) -> ThesisState {
    let mut t = thesis(number, ThesisPhase::Claimed);
    t.approved = true;
    t.active_claims = vec![ClaimRecord {
        node: node.to_string(),
        created_at: at(-1_000),
        expired: false,
    }];
    t
}

fn approved(number: u64) -> ThesisState {
    let mut t = thesis(number, ThesisPhase::Approved);
    t.approved = true;
    t
}

fn attempt(number: u64, branch: &str, value: f64, observation: Observation) -> AttemptRecord {
    AttemptRecord {
        thesis: number,
        node: "alice/n1".to_string(),
        branch: branch.to_string(),
        metric: metric(value),
        baseline_metric: Some(metric(0.5)),
        observation,
        summary: "summary".to_string(),
        author: "alice".to_string(),
        created_at: at(-600),
        comment_id: 11,
    }
}

fn candidate(number: u64, thesis: u64) -> PullRequestState {
    PullRequestState {
        pr: pull_request(number, &format!("thesis/{thesis}-example-thesis"), "OPEN"),
        thesis_number: Some(thesis),
        policy_pass: true,
        maintainer_approved: false,
        maintainer_rejected: false,
        review_claims: vec![],
        reviews: vec![],
        decision: None,
        findings: vec![],
    }
}

fn review(node: &str, value: f64, base: f64, observation: Observation) -> ReviewRecord {
    ReviewRecord {
        node: node.to_string(),
        metric: metric(value),
        baseline_metric: metric(base),
        observation,
        candidate_sha: "deadbeef".to_string(),
        base_sha: "cafe".to_string(),
        env_sha: None,
        timestamp: at(-100),
        created_at: at(-100),
    }
}

fn decision(outcome: Outcome) -> Decision {
    Decision {
        pr_number: 9,
        thesis_number: 1,
        candidate_sha: "deadbeef".to_string(),
        outcome,
        confirmations: 0,
        required_confirmations: 0,
    }
}

#[test]
fn candidates_wait_for_policy_and_reviews() {
    let c = config();
    let mut pr = candidate(9, 1);
    assert!(is_pr_decidable(&c, &pr, 0));
    assert!(!is_pr_decidable(&c, &pr, 1));
    pr.policy_pass = false;
    assert!(!is_pr_decidable(&c, &pr, 0));
}

#[test]
fn the_maintainer_has_a_say() {
    let mut c = config();
    c.auto_approve = false;
    let step = maintainer_step(&c, &candidate(9, 1), 9, false).unwrap();
    assert_eq!(step.assign, Some("maintainer".to_string()));
    assert!(step.refusal.is_some());
    c.auto_approve = true;
    let step = maintainer_step(&c, &candidate(9, 1), 9, false).unwrap();
    assert!(step.assign.is_none() && step.refusal.is_none());
}

#[test]
fn attempts_are_decided_by_their_metric() {
    let mut t = claimed(1, "alice/n1");
    t.attempts = vec![attempt(1, "thesis/1-example-thesis", 0.9, Observation::Improved)];
    let pr = candidate(9, 1);
    let best = Some(metric(0.8));
    assert_eq!(
        decide_without_peer_review(&config(), &t, &pr, &best, true).unwrap(),
        Outcome::Accepted
    );
    assert_eq!(
        decide_without_peer_review(&config(), &t, &pr, &best, false).unwrap(),
        Outcome::NonImprovement
    );
    t.attempts.clear();
    assert!(decide_without_peer_review(&config(), &t, &pr, &best, true).is_err());
}

#[test]
fn reviews_have_to_agree() {
    let mut c = config();
    c.required_confirmations = 2;
    let mut pr = candidate(9, 1);
    pr.reviews = vec![
        review("b/n", 0.9, 0.5, Observation::Improved),
        review("c/n", 0.8, 0.5, Observation::Improved),
    ];
    let (low, high) = metric_range(&pr.reviews).unwrap();
    assert_eq!(low, metric(0.8));
    assert_eq!(high, metric(0.9));
    let head = Ok("cafe".to_string());
    assert_eq!(
        decide_with_peer_review(&c, &pr, head.clone(), true).unwrap(),
        Outcome::Accepted
    );
    assert_eq!(
        decide_with_peer_review(&c, &pr, head, false).unwrap(),
        Outcome::Disagreement
    );
    assert_eq!(
        decide_with_peer_review(&c, &pr, Ok("beef".to_string()), true).unwrap(),
        Outcome::Stale
    );
    assert_eq!(confirmations(&c, &pr), 2);
    pr.reviews.pop();
    assert!(decide_with_peer_review(&c, &pr, Ok("cafe".to_string()), true).is_err());
}

#[test]
fn accepted_candidates_are_merged() {
    let d = decision(Outcome::Accepted);
    let first = execute_decision(&d, None, true);
    assert!(matches!(first, DecisionAction::Merge));
    match execute_decision(&d, Some((first, DecisionEvent::Merged)), true) {
        DecisionAction::Settle(s) => {
            assert_eq!(s.executed.outcome, Outcome::Accepted);
            assert!(s.close_thesis);
        }
        other => panic!("unexpected action {other:?}"),
    }
    let again = execute_decision(&d, Some((DecisionAction::Merge, DecisionEvent::MergeFailed)), true);
    assert!(matches!(again, DecisionAction::Rebase));
    let rebased = execute_decision(
        &d,
        Some((
            again,
            DecisionEvent::Rebased {
                sha: "feed".to_string(),
            },
        )),
        true,
    );
    assert!(matches!(rebased, DecisionAction::MergeRebased { .. }));
    match execute_decision(
        &d,
        Some((DecisionAction::Rebase, DecisionEvent::RebaseFailed)),
        true,
    ) {
        DecisionAction::Settle(s) => assert_eq!(s.executed.outcome, Outcome::Stale),
        other => panic!("unexpected action {other:?}"),
    }
}

#[test]
fn other_outcomes_are_settled_at_once() {
    match execute_decision(&decision(Outcome::NonImprovement), None, false) {
        DecisionAction::Settle(s) => {
            assert!(s.close_candidate);
            assert_eq!(s.executed.outcome, Outcome::NonImprovement);
        }
        other => panic!("unexpected action {other:?}"),
    }
}

#[test]
fn rejections_end_a_claim() {
    let mut t = claimed(1, "alice/n1");
    assert!(release_after_rejections(&config(), &t, Outcome::NonImprovement, false).is_none());
    for number in 2..4 {
        let mut pr = candidate(number, 1);
        pr.pr.state = "CLOSED".to_string();
        pr.decision = Some(DecisionRecord {
            outcome: Outcome::NonImprovement,
            candidate_sha: "x".to_string(),
            confirmations: 0,
            created_at: at(-10),
        });
        t.pull_requests.push(pr);
    }
    assert_eq!(count_prior_rejections(&t, None), 2);
    assert!(release_after_rejections(&config(), &t, Outcome::NonImprovement, false).is_some());
    assert!(release_after_rejections(&config(), &t, Outcome::NonImprovement, true).is_none());
    assert!(release_after_rejections(&config(), &t, Outcome::Accepted, false).is_none());
}

#[test]
fn the_lead_runs_once_or_on_and_on() {
    let plan = LeadPlan {
        min_queue_depth: 3,
        once: true,
        sleep_secs: 60,
    };
    let step = plan.next(LeadAction::RunAgent, LeadEvent::Done);
    assert!(matches!(step.action, LeadAction::ReadState));
    let step = plan.next(step.action, LeadEvent::Done);
    assert!(matches!(step.action, LeadAction::Sweep));
    let step = plan.next(step.action, LeadEvent::Done);
    assert!(matches!(step.action, LeadAction::ReadQueue));
    let step = plan.next(step.action, LeadEvent::Queue { depth: 3 });
    assert!(matches!(step.action, LeadAction::Stop));
    let step = plan.next(LeadAction::ReadQueue, LeadEvent::Queue { depth: 1 });
    assert!(matches!(step.action, LeadAction::Refill { depth: 1 }));
    let failed = plan.next(
        LeadAction::RunAgent,
        LeadEvent::Failed {
            message: "boom".to_string(),
        },
    );
    assert!(matches!(failed.action, LeadAction::Fail { .. }));
    assert!(!failed.notices.is_empty());
}

#[test]
fn sweeps_find_what_is_ready() {
    let mut t = thesis(1, ThesisPhase::InReview);
    t.approved = true;
    t.pull_requests = vec![candidate(9, 1)];
    let state = repository(vec![t]);
    let items = decide_ready_prs(&config(), &state, &Some(empty_ledger()), false).unwrap();
    assert_eq!(items.len(), 1);
    assert!(matches!(items[0].action, SweepAction::Decide));
    let items = decide_ready_prs(&config(), &state, &Some(empty_ledger()), true).unwrap();
    assert!(matches!(items[0].action, SweepAction::WouldDecide));
}

#[test]
fn the_agent_of_the_lead_is_configured() {
    assert_eq!(agent_command(&None, &None, "agent"), "agent -p --dangerously-skip-permissions");
    assert_eq!(agent_command(&None, &Some("mine".to_string()), "agent"), "mine");
    let node = NodeConfig::new("n", 1, 1, 1, None, "agent");
    assert_eq!(agent_command(&Some(node), &None, "agent"), "agent -p --dangerously-skip-permissions");
}

#[test]
fn only_ledger_commits_may_be_dropped() {
    assert!(local_sync_commits_only(SYNC_COMMIT_MESSAGE));
    assert!(!local_sync_commits_only("Something else"));
    assert!(!local_sync_commits_only(&format!("{SYNC_COMMIT_MESSAGE}\nSomething else")));
}

#[test]
fn pulls_rebase_where_they_cannot_fast_forward() {
    let next = pull_default_branch(PullAction::Fetch, Ok(String::new()));
    assert!(matches!(next, PullAction::FastForward));
    assert!(pull_args(&next, "main").contains(&"--ff-only".to_string()));
    let next = pull_default_branch(next, Err("diverged".to_string()));
    assert!(matches!(next, PullAction::Rebase));
    let next = pull_default_branch(next, Err("conflict".to_string()));
    assert!(matches!(next, PullAction::Abort { .. }));
    let next = pull_default_branch(next, Ok(String::new()));
    assert!(matches!(next, PullAction::ReadLog { .. }));
    let next = pull_default_branch(next, Ok(SYNC_COMMIT_MESSAGE.to_string()));
    assert!(matches!(next, PullAction::Reset));
    let next = pull_default_branch(next, Ok(String::new()));
    assert!(matches!(
        next,
        PullAction::Finish {
            outcome: PullOutcome::ResetSyncCommits
        }
    ));
    let failed = pull_default_branch(PullAction::Fetch, Err("offline".to_string()));
    assert!(matches!(failed, PullAction::Fail { .. }));
}

#[test]
fn pushes_are_tried_again_after_a_pull() {
    assert!(is_non_fast_forward_push_error("! [rejected] main (fetch first)"));
    assert!(!is_non_fast_forward_push_error("permission denied"));
    assert!(matches!(after_push(0, 3, Ok(String::new())), PushAction::Pushed));
    assert!(matches!(
        after_push(0, 3, Err("non-fast-forward".to_string())),
        PushAction::Pull { attempt: 0 }
    ));
    assert!(matches!(
        after_push(3, 3, Err("non-fast-forward".to_string())),
        PushAction::Fail { .. }
    ));
    assert!(matches!(
        after_push(0, 3, Err("permission denied".to_string())),
        PushAction::Fail { .. }
    ));
    assert!(matches!(
        after_pull(0, 3, Ok(PullOutcome::Updated)),
        PushAction::Push { attempt: 1 }
    ));
    assert!(matches!(
        after_pull(0, 3, Ok(PullOutcome::ResetSyncCommits)),
        PushAction::RestartSync
    ));
    assert!(matches!(
        after_pull(0, 3, Err("x".to_string())),
        PushAction::Fail { .. }
    ));
    assert!(retry_notice("main", 0, 3).contains("main"));
    assert_eq!(restarted(0).unwrap(), 1);
    assert!(restarted(3).is_err());
    assert!(ensure_on_default_branch("main", "main", false).is_ok());
    assert!(ensure_on_default_branch("topic", "main", false).is_err());
}

#[test]
fn added_rows_are_listed() {
    let row = LedgerRow {
        thesis: "#1".to_string(),
        attempt: "thesis/1-a".to_string(),
        metric: "1".to_string(),
        baseline: "0".to_string(),
        status: "accepted".to_string(),
        summary: "s".to_string(),
    };
    let output = SyncOutput::new(&vec![row]);
    assert_eq!(output.added_rows, 1);
    assert_eq!(output.attempts, vec!["thesis/1-a".to_string()]);
    assert_ne!(output.text(true), output.text(false));
}

#[test]
fn candidates_show_their_attempt() {
    let mut t = claimed(1, "alice/n1");
    t.attempts = vec![
        attempt(1, "thesis/1-a", 0.9, Observation::Improved),
        attempt(1, "thesis/1-b", 0.4, Observation::NoImprovement),
    ];
    let a = submittable_attempt(&t, "thesis/1-a", 1).unwrap();
    assert!(candidate_body(1, a).contains("0.9000"));
    assert!(submittable_attempt(&t, "thesis/1-b", 1).is_err());
    assert!(submittable_attempt(&t, "thesis/1-c", 1).is_err());
    assert!(candidate_title(1, "Try").contains("#1"));
    let surface = EditableSurface::new(vec!["src/".to_string()], vec![]);
    assert!(ensure_submittable(&surface, "src/a.rs\n", "main", "thesis/1-a", 1).is_ok());
    assert!(ensure_submittable(&surface, "", "main", "thesis/1-a", 1).is_err());
    assert!(ensure_submittable(&surface, "Cargo.toml\n", "main", "thesis/1-a", 1).is_err());
    assert_ne!(diff_ref("main", true), diff_ref("main", false));
}

#[test]
fn policy_checks_pass_or_reject() {
    let mut t = thesis(1, ThesisPhase::CandidateSubmitted);
    let mut pr = candidate(9, 1);
    pr.policy_pass = false;
    t.pull_requests = vec![pr];
    let state = repository(vec![t]);
    assert!(require_checkable_pr(&state, 9).is_ok());
    assert!(require_checkable_pr(&state, 8).is_err());
    let sha = || "deadbeef".to_string();
    assert!(matches!(after_check(true, Some(1), sha(), false), PolicyStep::Pass { .. }));
    assert!(matches!(
        after_check(false, Some(1), sha(), false),
        PolicyStep::Reject { thesis: 1, .. }
    ));
    assert!(matches!(after_check(true, Some(1), sha(), true), PolicyStep::Nothing));
    let output = PolicyCheckOutput::new(9, Some(1), vec!["Cargo.toml".to_string()]);
    assert!(!output.passed);
    assert!(output.text().contains("Cargo.toml"));
}

#[test]
fn environments_are_hashed() {
    assert_eq!(to_hex(&vec![0, 15, 255]), "000fff");
    let abc = compute_env_sha(vec![FileEntry {
        path: "a".to_string(),
        contents: b"bc".to_vec(),
    }]);
    assert_eq!(
        abc,
        "ba7816bf8f01cfea414140de5dae2223b00361a396177a9cb410ff61f20015ad"
    );
    assert_eq!(
        compute_env_sha(vec![]),
        "e3b0c44298fc1c149afbf4c8996fb92427ae41e4649b934ca495991b7852b855"
    );
    let file = |path: &str, contents: &[u8]| FileEntry {
        path: path.to_string(),
        contents: contents.to_vec(),
    };
    assert_eq!(
        compute_env_sha(vec![file("c", b""), file("a", b"b")]),
        abc
    );
    assert_eq!(
        compute_env_sha(vec![file("a-b", b"2"), file("a/b", b"1")]),
        compute_env_sha(vec![file("a/b", b"1"), file("a-b", b"2")])
    );
    assert_eq!(
        compute_env_sha(vec![file("a-b", b"2"), file("a/b", b"1")]),
        compute_env_sha(vec![file("a/b1a-b2", b"")])
    );
}

#[test]
fn reviews_are_recorded() {
    let t = thesis(1, ThesisPhase::InReview);
    let pr = candidate(9, 1);
    assert_eq!(reviewed_sha(&pr, 9).unwrap(), "deadbeef");
    let args = ReviewArgs {
        pr: 9,
        metric: metric(0.9),
        baseline: metric(0.5),
        observation: Observation::Improved,
    };
    let (comment, output) = record(&t, &args, "bob/n", "deadbeef", "cafe", &None, at(0));
    assert!(matches!(comment, ProtocolComment::Review { thesis: 1, .. }));
    assert!(output.text().contains('9'));
    let mut unknown = candidate(9, 1);
    unknown.pr.head_ref_oid = None;
    assert!(reviewed_sha(&unknown, 9).is_err());
}

fn limits(remaining: u64) -> RateLimitStatus {
    RateLimitStatus {
        resources: RateLimitResources {
            core: RateLimitBucket {
                limit: 5000,
                remaining,
                reset: (NOW + 600) as u64,
                used: 5000 - remaining,
            },
        },
    }
}

#[test]
fn the_pace_counts_recent_work() {
    let mut t = claimed(1, "alice/n1");
    t.attempts = vec![attempt(1, "thesis/1-a", 0.9, Observation::Improved)];
    let state = repository(vec![t, approved(2)]);
    assert_eq!(last_activity(&state, "alice/n1"), Some(at(-600)));
    assert_eq!(last_activity(&state, "bob/n"), None);
    assert_eq!(count_attempts_since(&state, "alice/n1", at(-3_600)), 1);
    assert_eq!(count_attempts_since(&state, "alice/n1", at(-60)), 0);
    let output = build_output(
        "o/r".to_string(),
        5000,
        "alice/n1",
        "Use it all.".to_string(),
        false,
        &state,
        &limits(4000),
        at(0),
    );
    assert_eq!(output.attempts_last_hour, 1);
    assert_eq!(output.idle_minutes, Some(10));
    assert_eq!(output.claimable_theses, 1);
    assert_eq!(output.active_claims, 1);
    assert!(!output.rate_limit.is_low);
    assert!(output.ensure_quota(at(0)).is_ok());
    assert!(output.text(at(0)).contains("alice/n1"));
    let low = build_output(
        "o/r".to_string(),
        5000,
        "alice/n1",
        "Use it all.".to_string(),
        true,
        &state,
        &limits(0),
        at(0),
    );
    assert!(low.rate_limit.is_low);
    assert_eq!(low.ensure_quota(at(0)).unwrap_err().code, 75);
}

#[test]
fn policies_are_wrapped() {
    assert_eq!(wrap_text("aa bb cc", 5), vec!["aa bb".to_string(), "cc".to_string()]);
    assert!(format_wrapped_policy("Policy", "short").contains("short"));
}

#[test]
fn repositories_are_cloned_or_forked() {
    assert_eq!(repo_name_from_url("https://github.com/o/r.git"), "r");
    let url = "https://github.com/o/r";
    assert!(matches!(clone_step(url, false, &None, true).unwrap(), CloneStep::Fetch | CloneStep::Skip));
    assert!(matches!(clone_step(url, true, &None, false).unwrap(), CloneStep::Clone));
    assert!(matches!(
        clone_step(url, false, &Some("me".to_string()), false).unwrap(),
        CloneStep::Fork { .. }
    ));
    assert!(matches!(
        clone_step(url, false, &None, false).unwrap(),
        CloneStep::AskAccess { .. }
    ));
    assert!(has_push_access("true\n"));
    assert!(!has_push_access("false\n"));
    assert!(matches!(
        after_access(true, Ok("me".to_string())).unwrap(),
        CloneStep::Clone
    ));
    match after_access(false, Ok("me".to_string())).unwrap() {
        CloneStep::Fork { owner } => assert_eq!(owner, "me"),
        other => panic!("unexpected step {other:?}"),
    }
    assert!(after_access(false, Err("no login".to_string())).is_err());
    assert_eq!(login_in(" me\n").unwrap(), "me");
    assert!(login_in(" \n").is_err());
    assert_ne!(fork_args(url, "team", "me"), fork_args(url, "me", "me"));
    assert!(ensure_forked(true, "").is_ok());
    assert!(ensure_forked(false, "denied").is_err());
    assert!(fork_url("me", url).contains("me/r"));
}

#[test]
fn goals_are_written_into_the_program() {
    let template = "# P\n\n## Goal\n\nOld goal.\n\n## Rules\n\nNone.\n";
    let text = replace_goal_section(template, "New goal.");
    assert!(text.contains("New goal."));
    assert!(!text.contains("Old goal."));
    assert!(text.contains("## Rules"));
    assert!(program_text(template, "1.2.3", Some("Other.")).contains("Other."));
    assert!(program_text(template, "1.2.3", None).contains("Old goal."));
}

#[test]
fn programs_are_completed_once() {
    let once = normalize_program_md("# P\n\nlead_github_login: a\n");
    assert_eq!(normalize_program_md(&once), once);
}

#[test]
fn overrides_are_noticed() {
    assert!(!has_overrides(&NodeOverrides::default()));
    assert!(has_overrides(&NodeOverrides {
        api_budget: Some(5),
        ..NodeOverrides::default()
    }));
}

#[test]
fn nodes_are_set_up() {
    assert_eq!(capacity(Some(20), Some(50)), 20);
    assert_eq!(capacity(None, Some(50)), 50);
    assert_eq!(capacity(None, None), 75);
    let output = InitOutput {
        repo: "o/r".to_string(),
        node: "alice/n1".to_string(),
        github_login: "alice".to_string(),
        capacity: 75,
    };
    assert!(output.text().contains("alice/n1"));
    assert!(issues_notice("denied", "o/r").contains("o/r"));
}

#[test]
fn ledgers_name_the_best() {
    let ledger = Ledger::load(
        "/repo",
        Some("thesis\tattempt\tmetric\tbaseline\tstatus\tsummary\n#1\ta\t0.5\t0.4\taccepted\tx\n#2\tb\t0.9\t0.4\tdiscarded\tx\n#3\tc\t0.7\t0.4\taccepted\tx\n"),
    );
    let readings = vec![Some(metric(0.5)), Some(metric(0.9)), Some(metric(0.7))];
    let direction = polyresearch::config::MetricDirection::HigherIsBetter;
    assert_eq!(ledger.best_accepted_metric(&readings, direction), Some(metric(0.7)));
    assert_eq!(
        ledger.best_accepted_metric_excluding(&readings, direction, &vec!["c".to_string()]),
        Some(metric(0.5))
    );
}
