use polyresearch::cli::{
    AdminAcknowledgeInvalidArgs, AdminReleaseClaimArgs, AdminReopenThesisArgs, AnnotateArgs,
    AttemptArgs, NodeOverrides, ReleaseArgs,
};
use polyresearch::commands::admin;
use polyresearch::commands::annotate::annotate;
use polyresearch::commands::attempt::{ensure_thesis_branch, record};
use polyresearch::commands::audit::audit;
use polyresearch::commands::batch_claim::{
    claim_failure, requested_count, select_claimable_theses,
};
use polyresearch::commands::claim::{claim_comment, ensure_unclaimed, ClaimOutput};
use polyresearch::commands::commit::{changed_paths, commit_message, ensure_committable};
use polyresearch::commands::duties::{
    check, claim_gate, ensure_unblocked, render_report, DutyContext, DutyReport,
};
use polyresearch::commands::generate::{
    approver, duplicate_titles, ensure_new_title, ensure_queue_has_room, normalize_title, opening,
    Opening,
};
use polyresearch::commands::guards::{
    close_if_exhausted, ensure_clean_audit, ensure_current_ledger, ensure_lead,
    require_claimable_thesis, require_claimed_thesis, require_decidable_pr, require_reviewable_pr,
};
use polyresearch::commands::prune::{parse_issue_from_dirname, prune_action, PruneAction};
use polyresearch::commands::release::release;
use polyresearch::commands::resume::{ensure_worktree, WorktreeStep};
use polyresearch::commands::review_claim::claim_review;
use polyresearch::commands::status::status;
use polyresearch::commands::{
    create_thesis_worktree, exit_with, machine_id, node_active_claims, node_name,
    resolve_hostname, slugify, thesis_branch, write_node_config,
};
use polyresearch::comments::{Observation, ProtocolComment, ReleaseReason};
use polyresearch::config::{ProgramSpec, ProtocolConfig};
use polyresearch::github::{Author, Issue, PullRequest};
use polyresearch::ledger::Ledger;
use polyresearch::metric::Metric;
use polyresearch::state::{
    AttemptRecord, ClaimRecord, PullRequestState, RepositoryState, ThesisPhase, ThesisState,
};
use polyresearch::time::Timestamp;
use polyresearch::validation::{AuditFinding, AuditScope, AuditSeverity};

const NOW: i64 = 1_776_000_000;

fn at(secs: i64) -> Timestamp {
    Timestamp {
        secs: NOW + secs,
        nanos: 0,
    }
}

fn metric(value: f64) -> Metric {
    Metric {
        bits: value.to_bits(),
        text: format!("{value:.4}"),
    }
}

fn issue(number: u64, title: &str) -> Issue {
    Issue {
        number,
        title: title.to_string(),
        body: None,
        state: "OPEN".to_string(),
        labels: vec![],
        created_at: at(-10_000),
        closed_at: None,
        author: None,
        url: None,
    }
}

fn thesis(number: u64, phase: ThesisPhase) -> ThesisState {
    ThesisState {
        issue: issue(number, "Example thesis"),
        phase,
        approved: false,
        maintainer_approved: false,
        maintainer_rejected: false,
        active_claims: vec![],
        releases: vec![],
        attempts: vec![],
        pull_requests: vec![],
        best_attempt_metric: None,
        invalidated_attempt_branches: vec![],
        findings: vec![],
    }
}

fn pull_request(number: u64, branch: &str, state: &str) -> PullRequest {
    PullRequest {
        number,
        title: "Candidate".to_string(),
        body: None,
        state: state.to_string(),
        head_ref_name: branch.to_string(),
        head_ref_oid: Some("deadbeef".to_string()),
        base_ref_name: Some("main".to_string()),
        created_at: at(-500),
        closed_at: None,
        merged_at: None,
        author: None,
        url: None,
        mergeable: None,
    }
}

fn repository(theses: Vec<ThesisState>) -> RepositoryState {
    RepositoryState {
        theses,
        pull_request_count: 0,
        active_nodes: vec![],
        queue_depth: 1,
        current_best_accepted_metric: None,
        invalidated_attempt_branches: vec![],
        recent_events: vec![],
        audit_findings: vec![],
    }
}

fn config() -> ProtocolConfig {
    ProtocolConfig {
        lead_github_login: Some("lead".to_string()),
        maintainer_github_login: Some("maintainer".to_string()),
        metric_tolerance: Some("0.01".to_string()),
        max_queue_depth: Some(10),
        ..ProtocolConfig::default()
    }
}

fn empty_ledger() -> Ledger {
    Ledger::load("/repo", None)
}

fn claimed(number: u64, node: &str) -> ThesisState {
    let mut t = thesis(number, ThesisPhase::Claimed);
    t.approved = true;
    t.active_claims = vec![ClaimRecord {
        node: node.to_string(),
        created_at: at(-1_000),
        expired: false,
    }];
    t
}

fn approved(number: u64) -> ThesisState {
    let mut t = thesis(number, ThesisPhase::Approved);
    t.approved = true;
    t
}

fn attempt(number: u64, branch: &str, value: f64, observation: Observation) -> AttemptRecord {
    AttemptRecord {
        thesis: number,
        node: "alice/n1".to_string(),
        branch: branch.to_string(),
        metric: metric(value),
        baseline_metric: Some(metric(0.5)),
        observation,
        summary: "summary".to_string(),
        author: "alice".to_string(),
        created_at: at(-600),
        comment_id: 11,
    }
}

fn candidate(number: u64, thesis: u64) -> PullRequestState {
    PullRequestState {
        pr: pull_request(number, &format!("thesis/{thesis}-example-thesis"), "OPEN"),
        thesis_number: Some(thesis),
        policy_pass: true,
        maintainer_approved: false,
        maintainer_rejected: false,
        review_claims: vec![],
        reviews: vec![],
        decision: None,
        findings: vec![],
    }
}

#[test]
fn render_report_includes_next_step_when_clear() {
    let rendered = render_report(&DutyReport {
        blocking: vec![],
        advisory: vec![],
        clean: true,
    });

    assert!(rendered.contains("No duties. All clear."));
    assert!(rendered.contains("NEXT: sleep 60 && polyresearch duties"));
}

#[test]
fn normalize_title_lowercases_and_strips() {
    assert_eq!(
        normalize_title("Regex Caching Optimization!"),
        "regex caching optimization"
    );
}

#[test]
fn normalize_title_collapses_whitespace() {
    assert_eq!(normalize_title("  foo   bar  "), "foo bar");
}

#[test]
fn normalize_title_strips_punctuation() {
    assert_eq!(normalize_title("use SIMD (AVX-512)"), "use simd avx 512");
}

#[test]
fn normalize_title_treats_punctuation_as_separator() {
    assert_eq!(
        normalize_title("regex-caching/optimization"),
        "regex caching optimization"
    );
}

#[test]
fn titles_are_compared_across_alphabets() {
    assert_eq!(normalize_title("ÉTUDE №1"), "étude 1");
    assert_eq!(normalize_title("!!!"), "");
}

#[test]
fn resolve_hostname_trims_hostname_env_var() {
    assert_eq!(resolve_hostname(Some("worker-host  \n"), None), "worker-host");
    assert_eq!(resolve_hostname(Some("  "), Some("box\n")), "box");
}

#[test]
fn names_are_made_of_plain_parts() {
    assert_eq!(slugify("Faster  RMSNorm!"), "faster-rmsnorm");
    assert_eq!(thesis_branch(12, "Faster RMSNorm"), "thesis/12-faster-rmsnorm");
    assert_eq!(node_name("alice", "box-1"), "alice/box-1");
    assert_eq!(machine_id("box", 0x1f), "box-001f");
}

#[test]
fn worktrees_are_made_once() {
    let made = create_thesis_worktree("/repo", 3, "Try", false, false).unwrap();
    assert_eq!(made.branch, "thesis/3-try");
    assert!(made.worktree_path.starts_with("/repo/"));
    assert!(create_thesis_worktree("/repo", 3, "Try", true, false).is_err());
    assert!(create_thesis_worktree("/repo", 3, "Try", false, true).is_err());
}

#[test]
fn exits_carry_their_code() {
    let e = exit_with(75, "slow down").unwrap_err();
    assert_eq!(e.code, 75);
    assert_eq!(e.text(), "slow down");
}

#[test]
fn node_settings_are_kept_unless_given() {
    let overrides = NodeOverrides {
        capacity: Some(30),
        ..NodeOverrides::default()
    };
    let first = write_node_config(None, "alice/n1", &overrides, "agent");
    assert_eq!(first.capacity, 30);
    let second = write_node_config(Some(first.clone()), "alice/n2", &NodeOverrides::default(), "agent");
    assert_eq!(second.node_id, "alice/n2");
    assert_eq!(second.capacity, 30);
}

#[test]
fn a_free_node_has_no_demands() {
    let state = repository(vec![approved(1)]);
    let report = check(
        &state,
        &config(),
        &empty_ledger(),
        &None,
        "alice/n1",
        "alice",
        DutyContext::Contribute,
    );
    assert!(report.blocking.is_empty());
    assert_eq!(report.clean, report.blocking.is_empty() && report.advisory.is_empty());
}

#[test]
fn an_improved_attempt_has_to_be_submitted() {
    let mut t = claimed(1, "alice/n1");
    t.attempts = vec![attempt(1, "thesis/1-example-thesis", 0.9, Observation::Improved)];
    let state = repository(vec![t]);
    let report = claim_gate(&state, &config(), &empty_ledger(), &None, "alice/n1", "alice");
    assert_eq!(report.blocking.len(), 1);
    assert!(report.blocking[0].command.contains("submit 1"));
    assert!(ensure_unblocked("Stop:", &report.blocking).is_err());
    assert!(ensure_unblocked("Stop:", &vec![]).is_ok());
    assert!(render_report(&report).starts_with("BLOCKING"));
}

#[test]
fn the_lead_decides_open_candidates() {
    let mut t = thesis(1, ThesisPhase::InReview);
    t.approved = true;
    t.pull_requests = vec![candidate(9, 1)];
    let state = repository(vec![t]);
    let report = check(
        &state,
        &config(),
        &empty_ledger(),
        &None,
        "lead/n",
        "lead",
        DutyContext::Lead,
    );
    assert!(report.blocking.iter().any(|d| d.command.contains("decide 9")));
}

#[test]
fn duplicate_titles_are_refused() {
    let state = repository(vec![approved(1)]);
    assert_eq!(duplicate_titles(&state, "EXAMPLE, thesis").len(), 1);
    assert!(ensure_new_title(&state, "example thesis!").is_err());
    assert!(ensure_new_title(&state, "another idea").is_ok());
}

#[test]
fn queues_have_a_limit() {
    let mut state = repository(vec![]);
    state.queue_depth = 9;
    assert!(ensure_queue_has_room(&state, &config()).is_ok());
    state.queue_depth = 10;
    assert!(ensure_queue_has_room(&state, &config()).is_err());
}

#[test]
fn new_theses_are_approved_or_assigned() {
    let mut c = config();
    c.auto_approve = true;
    let who = approver(&c).unwrap();
    assert!(matches!(
        opening(4, who),
        Opening::Approve {
            comment: ProtocolComment::Approval { thesis: 4 }
        }
    ));
    c.auto_approve = false;
    let who = approver(&c).unwrap();
    match opening(4, who) {
        Opening::Assign { maintainer } => assert_eq!(maintainer, "maintainer"),
        other => panic!("unexpected opening {other:?}"),
    }
    c.maintainer_github_login = None;
    assert!(approver(&c).is_err());
}

#[test]
fn guards_name_what_is_wrong() {
    assert_eq!(ensure_lead(&config(), "lead").unwrap(), "lead");
    assert!(ensure_lead(&config(), "eve").is_err());
    let state = repository(vec![approved(1), claimed(2, "alice/n1")]);
    assert!(require_claimable_thesis(&state, 1).is_ok());
    assert!(require_claimable_thesis(&state, 2).is_err());
    assert!(require_claimable_thesis(&state, 3).is_err());
    assert!(require_claimed_thesis(&state, 2, "alice/n1").is_ok());
    assert!(require_claimed_thesis(&state, 2, "bob/n1").is_err());
    assert!(require_claimed_thesis(&state, 1, "alice/n1").is_err());
}

#[test]
fn reviewers_do_not_review_themselves() {
    let mut t = thesis(1, ThesisPhase::InReview);
    let mut pr = candidate(9, 1);
    pr.pr.author = Some(Author {
        login: "alice".to_string(),
    });
    t.pull_requests = vec![pr];
    let state = repository(vec![t]);
    assert!(require_reviewable_pr(&state, 9, "bob").is_ok());
    assert!(require_reviewable_pr(&state, 9, "alice").is_err());
    assert!(require_decidable_pr(&state, 9).is_ok());
    assert!(require_decidable_pr(&state, 10).is_err());
    let (comment, output) = claim_review(&state, 9, "bob", "bob/n1").unwrap();
    assert_eq!(output.issue, 1);
    assert_eq!(
        comment,
        ProtocolComment::ReviewClaim {
            thesis: 1,
            node: "bob/n1".to_string()
        }
    );
    assert!(output.text().contains("bob/n1"));
}

fn finding(id: u64, severity: AuditSeverity) -> AuditFinding {
    AuditFinding {
        scope: AuditScope::Issue { number: 1 },
        severity,
        message: "claim posted before a valid approval".to_string(),
        comment_id: Some(id),
        author: Some("eve".to_string()),
        created_at: Some(at(-5)),
    }
}

#[test]
fn unclean_audits_hold_the_lead() {
    let mut state = repository(vec![approved(1)]);
    assert!(ensure_clean_audit(&state, "deciding").is_ok());
    state.audit_findings = vec![finding(4, AuditSeverity::Invalid)];
    assert!(ensure_clean_audit(&state, "deciding").is_err());
    let output = audit("o/r".to_string(), &state, &empty_ledger());
    assert_eq!(output.invalid_count, 1);
    assert_eq!(output.suspicious_count, 0);
    assert!(output.text().contains("1 invalid, 0 suspicious, 0 info"));
}

#[test]
fn stale_ledgers_are_refused() {
    let mut t = thesis(
        1,
        ThesisPhase::Resolved {
            outcome: polyresearch::comments::Outcome::Accepted,
        },
    );
    t.attempts = vec![attempt(1, "thesis/1-example-thesis", 0.9, Observation::Crashed)];
    let state = repository(vec![t]);
    assert!(ensure_current_ledger(Ok(empty_ledger()), &state).is_err());
    assert!(ensure_current_ledger(Err("unreadable".to_string()), &state).is_err());
    let mut ledger = empty_ledger();
    let missing = ledger.missing_rows(&state);
    assert_eq!(missing.len(), 1);
    ledger.append_rows(&missing);
    assert!(ledger.is_current(&state));
    assert!(ensure_current_ledger(Ok(ledger), &state).is_ok());
    assert!(ensure_current_ledger(Ok(empty_ledger()), &repository(vec![])).is_ok());
}

#[test]
fn exhausted_theses_are_closed() {
    let state = repository(vec![thesis(1, ThesisPhase::Exhausted), approved(2)]);
    assert!(close_if_exhausted(&state, 1, ReleaseReason::NoImprovement));
    assert!(!close_if_exhausted(&state, 1, ReleaseReason::Timeout));
    assert!(!close_if_exhausted(&state, 2, ReleaseReason::NoImprovement));
}

#[test]
fn claims_are_posted_for_a_node() {
    let t = approved(12);
    let output = ClaimOutput::new("/repo", &t, "alice/n1");
    assert_eq!(output.branch, "thesis/12-example-thesis");
    assert_ne!(output.text(true), output.text(false));
    assert!(ensure_unclaimed(&t, 12).is_ok());
    assert!(ensure_unclaimed(&claimed(12, "bob/n"), 12).is_err());
    assert_eq!(
        claim_comment(&t, "alice/n1"),
        ProtocolComment::Claim {
            thesis: 12,
            node: "alice/n1".to_string()
        }
    );
}

#[test]
fn the_lowest_numbers_are_claimed_first() {
    let state = repository(vec![approved(9), claimed(1, "bob/n"), approved(3), approved(5)]);
    let places = select_claimable_theses(&state, "alice/n1", 2);
    let numbers: Vec<u64> = places.iter().map(|p| state.theses[*p].issue.number).collect();
    assert_eq!(numbers, vec![3, 5]);
    assert_eq!(requested_count(Some(4)).unwrap(), 4);
    assert!(requested_count(Some(0)).is_err());
    assert!(claim_failure(&vec![], 3, "boom".to_string()).contains("boom"));
    assert_eq!(node_active_claims(&state, "bob/n"), 1);
}

#[test]
fn attempts_are_numbered() {
    assert!(ensure_thesis_branch("thesis/3-x", 3).is_ok());
    assert!(ensure_thesis_branch("thesis/4-x", 3).is_err());
    assert!(ensure_thesis_branch("main", 3).is_err());
    let mut t = claimed(3, "alice/n1");
    t.attempts = vec![attempt(3, "thesis/3-a", 0.4, Observation::NoImprovement)];
    let args = AttemptArgs {
        issue: 3,
        metric: metric(0.9),
        baseline: metric(0.5),
        observation: Observation::Improved,
        summary: "better".to_string(),
        annotations: None,
    };
    let (comment, output) = record(&t, &args, "thesis/3-b", None);
    assert_eq!(output.attempt_number, 2);
    assert!(matches!(comment, ProtocolComment::Attempt { thesis: 3, .. }));
    assert_ne!(
        output.text(Observation::Improved),
        output.text(Observation::NoImprovement)
    );
}

#[test]
fn annotations_and_releases_name_their_thesis() {
    let state = repository(vec![approved(3)]);
    let args = AnnotateArgs {
        issue: 3,
        text: "look here".to_string(),
    };
    let (comment, _) = annotate(&state, &args, "alice/n1").unwrap();
    assert!(comment.render().contains("look here"));
    let missing = AnnotateArgs {
        issue: 4,
        text: "x".to_string(),
    };
    assert!(annotate(&state, &missing, "alice/n1").is_err());
    let (comment, output) = release(
        &ReleaseArgs {
            issue: 3,
            reason: ReleaseReason::Timeout,
        },
        "alice/n1",
    );
    assert!(comment.render().contains("reason: timeout"));
    assert!(output.text().contains("3"));
}

#[test]
fn repairs_leave_a_note() {
    let mut state = repository(vec![claimed(3, "alice/n1")]);
    state.audit_findings = vec![finding(8, AuditSeverity::Invalid)];
    let args = AdminReleaseClaimArgs {
        issue: 3,
        node: "alice/n1".to_string(),
        reason: ReleaseReason::Timeout,
        note: "gone".to_string(),
    };
    let (comments, output) = admin::release_claim(&state, &args).unwrap();
    assert_eq!(comments.len(), 2);
    assert!(output.text().contains("alice/n1"));
    let acknowledged = admin::acknowledge_invalid(
        &state,
        &AdminAcknowledgeInvalidArgs {
            comment_id: 8,
            note: "seen".to_string(),
        },
    )
    .unwrap();
    assert_eq!(acknowledged.0, 1);
    assert!(admin::acknowledge_invalid(
        &state,
        &AdminAcknowledgeInvalidArgs {
            comment_id: 9,
            note: "seen".to_string(),
        },
    )
    .is_err());
    let (note, _) = admin::reopen_thesis(&AdminReopenThesisArgs {
        issue: 3,
        note: "again".to_string(),
    });
    assert!(matches!(note, ProtocolComment::AdminNote { .. }));
}

#[test]
fn only_allowed_files_are_committed() {
    let program = ProgramSpec::from_globs(vec!["src/".to_string()], vec![]);
    assert_eq!(
        changed_paths("src/b.rs\n", "src/a.rs\n", "src/b.rs\n"),
        vec!["src/a.rs".to_string(), "src/b.rs".to_string()]
    );
    assert!(ensure_committable(&program, &vec!["src/a.rs".to_string()]).is_ok());
    assert!(ensure_committable(&program, &vec!["README.md".to_string()]).is_err());
    assert!(ensure_committable(&program, &vec![]).is_err());
    let t = approved(3);
    assert_eq!(commit_message(&t, 3, &Some("mine".to_string())), "thesis/3: mine");
    assert!(commit_message(&t, 3, &None).contains("Example thesis"));
}

#[test]
fn worktrees_of_finished_theses_are_pruned() {
    assert_eq!(parse_issue_from_dirname("12-some-title"), Some(12));
    assert_eq!(parse_issue_from_dirname("notes"), None);
    let state = Some(repository(vec![
        thesis(12, ThesisPhase::Rejected),
        claimed(13, "alice/n1"),
    ]));
    assert_eq!(prune_action("13-x", true, &state), PruneAction::Keep);
    assert_ne!(prune_action("12-x", true, &state), PruneAction::Keep);
}

#[test]
fn worktrees_are_attached_or_made() {
    let ready = ensure_worktree("/w", "thesis/1-x", "main", Some("thesis/1-x"), true).unwrap();
    assert!(matches!(ready, WorktreeStep::Ready));
    assert!(ensure_worktree("/w", "thesis/1-x", "main", Some("main"), true).is_err());
    match ensure_worktree("/w", "thesis/1-x", "main", None, true).unwrap() {
        WorktreeStep::Attach { args } => assert!(args.contains(&"/w".to_string())),
        other => panic!("unexpected step {other:?}"),
    }
    match ensure_worktree("/w", "thesis/1-x", "main", None, false).unwrap() {
        WorktreeStep::Create { args } => assert!(args.contains(&"-b".to_string())),
        other => panic!("unexpected step {other:?}"),
    }
}

#[test]
fn the_status_counts_theses() {
    let state = repository(vec![approved(1), claimed(2, "alice/n1")]);
    let output = status("o/r".to_string(), &config(), &state, &empty_ledger());
    assert_eq!(output.thesis_count, 2);
    assert_eq!(output.queue_depth, 1);
    assert!(output.text().contains("o/r"));
}
