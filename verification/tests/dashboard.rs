use polyresearch::comments::Observation;
use polyresearch::github::Issue;
use polyresearch::ledger::Ledger;
use polyresearch::metric::Metric;
use polyresearch::state::{
    ActivityEvent, AttemptRecord, RepositoryState, ThesisPhase, ThesisState,
};
use polyresearch::time::Timestamp;
use polyresearch::tui::app::{DashboardApp, DashboardKey, KeyEffect};
use polyresearch::tui::views::{
    activity_lines, detail_text, format_clock, render_finding, summary_text, thesis_row,
};
use polyresearch::validation::{AuditFinding, AuditScope, AuditSeverity};

const NOW: i64 = 1_776_000_000;

fn at(secs: i64) -> Timestamp {
    Timestamp {
        secs: NOW + secs,
        nanos: 0,
    }
}

fn metric(value: f64) -> Metric {
    Metric {
        bits: value.to_bits(),
        text: format!("{value:.4}"),
    }
}

fn issue(number: u64, title: &str) -> Issue {
    Issue {
        number,
        title: title.to_string(),
        body: None,
        state: "OPEN".to_string(),
        labels: vec![],
        created_at: at(-10_000),
        closed_at: None,
        author: None,
        url: None,
    }
}

fn thesis(number: u64, phase: ThesisPhase) -> ThesisState {
    ThesisState {
        issue: issue(number, "Example thesis"),
        phase,
        approved: false,
        maintainer_approved: false,
        maintainer_rejected: false,
        active_claims: vec![],
        releases: vec![],
        attempts: vec![],
        pull_requests: vec![],
        best_attempt_metric: None,
        invalidated_attempt_branches: vec![],
        findings: vec![],
    }
}

fn app(count: u64) -> DashboardApp {
    let mut theses = vec![];
    for number in 1..=count {
        theses.push(thesis(number, ThesisPhase::Approved));
    }
    DashboardApp::new(
        RepositoryState {
            theses,
            pull_request_count: 0,
            active_nodes: vec![],
            queue_depth: 2,
            current_best_accepted_metric: Some(metric(0.75)),
            invalidated_attempt_branches: vec![],
            recent_events: vec![ActivityEvent {
                source: "alice".to_string(),
                created_at: Timestamp {
                    secs: 1_700_000_000,
                    nanos: 0,
                },
                summary: "did a thing".to_string(),
            }],
            audit_findings: vec![],
        },
        Ledger::load("/repo", None),
    )
}

#[test]
fn down_and_up_undo_each_other() {
    let mut a = app(3);
    let start = a.selected;
    a.press(DashboardKey::Down);
    assert_ne!(a.selected, start);
    a.press(DashboardKey::Up);
    assert_eq!(a.selected, start);
}

#[test]
fn the_selection_goes_round() {
    let mut a = app(2);
    assert_eq!(a.selected, Some(0));
    a.next();
    a.next();
    assert_eq!(a.selected, Some(0));
    a.previous();
    assert_eq!(a.selected, Some(1));
    assert_eq!(a.selected_thesis().unwrap().issue.number, 2);
    let mut empty = app(0);
    empty.next();
    assert_eq!(empty.selected, None);
    assert!(empty.selected_thesis().is_none());
}

#[test]
fn keys_have_effects() {
    let mut a = app(1);
    assert_eq!(a.press(DashboardKey::Quit), KeyEffect::Quit);
    assert_eq!(a.press(DashboardKey::Refresh), KeyEffect::Refresh);
    assert_eq!(a.press(DashboardKey::Other), KeyEffect::Nothing);
    assert!(!a.show_details);
    assert_eq!(a.press(DashboardKey::Enter), KeyEffect::Nothing);
    assert!(a.show_details);
    a.toggle_detail();
    assert!(!a.show_details);
}

#[test]
fn refreshing_keeps_the_selection() {
    let mut a = app(3);
    a.next();
    let fresh = app(2);
    a.refresh(fresh.repo_state, fresh.ledger);
    assert_eq!(a.selected, Some(1));
    let empty = app(0);
    a.refresh(empty.repo_state, empty.ledger);
    assert_eq!(a.selected, None);
    let again = app(1);
    a.refresh(again.repo_state, again.ledger);
    assert_eq!(a.selected, Some(0));
}

#[test]
fn views_show_the_state() {
    let a = app(2);
    assert!(summary_text("o/r", Some(10), &a).contains("o/r"));
    assert!(summary_text("o/r", Some(10), &a).contains("0.7500"));
    let row = thesis_row(&a.repo_state.theses[0]);
    assert!(row[0].contains('1'));
    assert_eq!(row[2], "Approved");
    assert!(activity_lines(&a)[0].contains("did a thing"));
    assert!(detail_text(&a).contains("Example thesis"));
}

#[test]
fn details_show_attempts() {
    let mut a = app(1);
    a.repo_state.theses[0].attempts = vec![AttemptRecord {
        thesis: 1,
        node: "alice/n1".to_string(),
        branch: "thesis/1-x".to_string(),
        metric: metric(0.25),
        baseline_metric: None,
        observation: Observation::NoImprovement,
        summary: "slower".to_string(),
        author: "alice".to_string(),
        created_at: at(0),
        comment_id: 1,
    }];
    assert!(detail_text(&a).contains("thesis/1-x"));
}

#[test]
fn clocks_and_findings_are_short() {
    let t = Timestamp {
        secs: 1_700_000_000,
        nanos: 0,
    };
    assert_eq!(format_clock(&t), "22:13:20");
    let f = AuditFinding {
        scope: AuditScope::PullRequest { number: 4 },
        severity: AuditSeverity::Suspicious,
        message: "duplicate".to_string(),
        comment_id: None,
        author: None,
        created_at: None,
    };
    assert!(render_finding(&f).contains("duplicate"));
}
