use polyresearch::comments::ReleaseReason;
use polyresearch::commands::contribute::{
    after_agent, claimable_theses, clone_target, cooldown_secs, is_crash_cooldown,
    ContributeAction, MAX_CRASH_COOLDOWN_SECS,
};
use polyresearch::github::Issue;
use polyresearch::state::{ReleaseRecord, RepositoryState, ThesisPhase, ThesisState};
use polyresearch::time::Timestamp;

const NOW: i64 = 1_776_000_000;

fn at(secs: i64) -> Timestamp {
    Timestamp {
        secs: NOW + secs,
        nanos: 0,
    }
}

fn issue(number: u64, title: &str) -> Issue {
    Issue {
        number,
        title: title.to_string(),
        body: None,
        state: "OPEN".to_string(),
        labels: vec![],
        created_at: at(-10_000),
        closed_at: None,
        author: None,
        url: None,
    }
}

fn thesis(number: u64, phase: ThesisPhase) -> ThesisState {
    ThesisState {
        issue: issue(number, "Example thesis"),
        phase,
        approved: false,
        maintainer_approved: false,
        maintainer_rejected: false,
        active_claims: vec![],
        releases: vec![],
        attempts: vec![],
        pull_requests: vec![],
        best_attempt_metric: None,
        invalidated_attempt_branches: vec![],
        findings: vec![],
    }
}

fn make_thesis_with_releases(releases: Vec<ReleaseRecord>) -> ThesisState {
    let mut t = thesis(5, ThesisPhase::Approved);
    t.approved = true;
    t.releases = releases;
    t
}

fn infra_release(node: &str, at: Timestamp) -> ReleaseRecord {
    ReleaseRecord {
        node: node.to_string(),
        reason: ReleaseReason::InfraFailure,
        created_at: at,
    }
}

fn timeout_release(node: &str, at: Timestamp) -> ReleaseRecord {
    ReleaseRecord {
        node: node.to_string(),
        reason: ReleaseReason::Timeout,
        created_at: at,
    }
}

#[test]
fn crash_cooldown_excludes_after_crashes() {
    let now = at(0);
    let thesis = make_thesis_with_releases(vec![
        infra_release("node-a", at(-10)),
        infra_release("node-a", at(-5)),
        infra_release("node-a", at(-1)),
    ]);

    assert!(
        is_crash_cooldown(&thesis, "node-a", 60, now),
        "thesis should be in cooldown with 3 recent crashes"
    );
}

#[test]
fn crash_cooldown_does_not_affect_other_nodes() {
    let now = at(0);
    let thesis = make_thesis_with_releases(vec![
        infra_release("node-a", at(-10)),
        infra_release("node-a", at(-5)),
        infra_release("node-a", at(-1)),
    ]);

    assert!(
        !is_crash_cooldown(&thesis, "node-b", 60, now),
        "node-b should not be affected by node-a's crashes"
    );
}

#[test]
fn crash_cooldown_increases_exponentially() {
    let base = 60u64;
    let last_crash = at(-200);

    let thesis_1 = make_thesis_with_releases(vec![infra_release("n", last_crash)]);
    let now = at(0);
    assert!(
        !is_crash_cooldown(&thesis_1, "n", base, now),
        "1 crash, 200s later: cooldown (60s) should have expired"
    );

    let thesis_2 = make_thesis_with_releases(vec![
        infra_release("n", at(-500)),
        infra_release("n", last_crash),
    ]);
    let now = at(-100);
    assert!(
        is_crash_cooldown(&thesis_2, "n", base, now),
        "2 crashes, 100s later: cooldown (120s) should still be active"
    );

    let thesis_3 = make_thesis_with_releases(vec![
        infra_release("n", at(-800)),
        infra_release("n", at(-500)),
        infra_release("n", last_crash),
    ]);
    let now = at(0);
    assert!(
        is_crash_cooldown(&thesis_3, "n", base, now),
        "3 crashes, 200s later: cooldown (240s) should still be active"
    );
}

#[test]
fn crash_cooldown_expires() {
    let now = at(0);
    let thesis = make_thesis_with_releases(vec![infra_release(
        "node-a",
        at(-120),
    )]);

    assert!(
        !is_crash_cooldown(&thesis, "node-a", 60, now),
        "cooldown (60s) should have expired after 120s"
    );
}

#[test]
fn crash_cooldown_capped_at_max() {
    let now = at(0);
    let mut releases = Vec::new();
    for i in 0..20 {
        releases.push(infra_release(
            "node-a",
            at(-i),
        ));
    }
    let thesis = make_thesis_with_releases(releases);

    let after_max = at(MAX_CRASH_COOLDOWN_SECS as i64 + 1);
    assert!(
        !is_crash_cooldown(&thesis, "node-a", 60, after_max),
        "cooldown should expire after MAX_CRASH_COOLDOWN_SECS even with 20 crashes"
    );

    let before_max = at(MAX_CRASH_COOLDOWN_SECS as i64 - 60);
    assert!(
        is_crash_cooldown(&thesis, "node-a", 60, before_max),
        "cooldown should be active before MAX_CRASH_COOLDOWN_SECS with 20 crashes"
    );
}

#[test]
fn crash_cooldown_ignores_no_improvement_releases() {
    let now = at(0);
    let thesis = make_thesis_with_releases(vec![ReleaseRecord {
        node: "node-a".to_string(),
        reason: ReleaseReason::NoImprovement,
        created_at: at(-1),
    }]);

    assert!(
        !is_crash_cooldown(&thesis, "node-a", 60, now),
        "NoImprovement releases should not trigger crash cooldown"
    );
}

#[test]
fn crash_cooldown_counts_timeout_releases() {
    let now = at(0);
    let thesis = make_thesis_with_releases(vec![timeout_release(
        "node-a",
        at(-10),
    )]);

    assert!(
        is_crash_cooldown(&thesis, "node-a", 60, now),
        "timeout releases should trigger crash cooldown"
    );
}

#[test]
fn crash_cooldown_no_releases() {
    let now = at(0);
    let thesis = make_thesis_with_releases(vec![]);

    assert!(
        !is_crash_cooldown(&thesis, "node-a", 60, now),
        "no releases should mean no cooldown"
    );
}

#[test]
fn crash_cooldown_zero_base_always_expired() {
    let now = at(0);
    let thesis = make_thesis_with_releases(vec![infra_release(
        "node-a",
        Timestamp { secs: NOW - 1, nanos: 999_000_000 },
    )]);

    assert!(
        !is_crash_cooldown(&thesis, "node-a", 0, now),
        "zero base cooldown should never block"
    );
}

#[test]
fn cooldowns_double_up_to_the_limit() {
    assert_eq!(cooldown_secs(60, 1), 60);
    assert_eq!(cooldown_secs(60, 2), 120);
    assert_eq!(cooldown_secs(60, 3), 240);
    assert_eq!(cooldown_secs(60, 20), MAX_CRASH_COOLDOWN_SECS);
    assert_eq!(cooldown_secs(u64::MAX, 9), MAX_CRASH_COOLDOWN_SECS);
}

#[test]
fn theses_in_cooldown_are_not_offered() {
    let mut cooling = make_thesis_with_releases(vec![infra_release("n", at(-1))]);
    cooling.issue.number = 1;
    let free = make_thesis_with_releases(vec![]);
    let state = RepositoryState {
        theses: vec![cooling, free],
        pull_request_count: 0,
        active_nodes: vec![],
        queue_depth: 2,
        current_best_accepted_metric: None,
        invalidated_attempt_branches: vec![],
        recent_events: vec![],
        audit_findings: vec![],
    };
    let offered = claimable_theses(&state, "n", 60, at(0));
    assert_eq!(offered.len(), 1);
    assert_eq!(offered[0].issue.number, 5);
    assert_eq!(claimable_theses(&state, "m", 60, at(0)).len(), 2);
}

#[test]
fn a_single_run_stops_after_its_agent() {
    assert!(matches!(after_agent(None, true, 60).1, ContributeAction::Stop));
    assert!(matches!(after_agent(None, false, 60).1, ContributeAction::Stop));
    assert!(matches!(
        after_agent(Some("boom".to_string()), true, 60).1,
        ContributeAction::Fail { .. }
    ));
    assert!(matches!(
        after_agent(Some("boom".to_string()), false, 60).1,
        ContributeAction::Pause
    ));
}

#[test]
fn a_clone_goes_into_a_directory_of_its_own() {
    assert_eq!(clone_target("/work", true, "repo"), "/work");
    assert_eq!(clone_target("/work", false, "repo"), "/work/repo");
}
