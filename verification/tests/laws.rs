use polyresearch::agent::shell_words;
use polyresearch::commands::slugify;
use polyresearch::comments::{Observation, Outcome, ProtocolComment, Readings, ReleaseReason};
use polyresearch::config::{MetricDirection, ProgramSpec, ProtocolConfig};
use polyresearch::editable_surface::{protected_patterns, EditableSurface};
use polyresearch::github::{CommentUser, Issue, IssueComment, Label};
use polyresearch::metric::Metric;
use polyresearch::sort::sort;
use polyresearch::state::{select_metric, RepositoryState, ThesisPhase, ThesisState};
use polyresearch::text_set::insert;
use polyresearch::throttle::{read_last_request, remaining_delay, write_last_request};
use polyresearch::time::{Delay, Timestamp};
use polyresearch::validation::{validate_issue, IssueValidation, ProtocolEnvelope};
use std::collections::HashMap;

fn at(secs: i64) -> Timestamp {
    Timestamp {
        secs: 1_776_000_000 + secs,
        nanos: 0,
    }
}

fn metric(value: f64) -> Metric {
    Metric {
        bits: value.to_bits(),
        text: format!("{value:.4}"),
    }
}

fn issue() -> Issue {
    Issue {
        number: 7,
        title: "Thesis".to_string(),
        body: None,
        state: "OPEN".to_string(),
        labels: vec![],
        created_at: at(-1_000),
        closed_at: None,
        author: None,
        url: None,
    }
}

fn comment(id: u64, login: &str, secs: i64, body: &str, value: Option<f64>) -> IssueComment {
    IssueComment {
        id,
        body: body.to_string(),
        user: CommentUser {
            login: login.to_string(),
        },
        created_at: at(secs),
        updated_at: None,
        readings: Readings {
            metric: value.map(metric),
            baseline_metric: None,
            annotations: None,
        },
    }
}

fn posted(id: u64, login: &str, secs: i64, said: &ProtocolComment) -> IssueComment {
    comment(id, login, secs, &said.render(), Some(0.5))
}

fn config(auto_approve: bool) -> ProtocolConfig {
    ProtocolConfig {
        lead_github_login: Some("lead".to_string()),
        maintainer_github_login: Some("maintainer".to_string()),
        auto_approve,
        ..ProtocolConfig::default()
    }
}

fn judge(comments: Vec<IssueComment>, auto_approve: bool) -> IssueValidation {
    let envelopes = comments
        .into_iter()
        .map(|c| ProtocolEnvelope::from_issue_comment(c).unwrap())
        .collect();
    validate_issue(&issue(), envelopes, &config(auto_approve), None, at(0))
}

fn approval() -> ProtocolComment {
    ProtocolComment::Approval { thesis: 7 }
}

fn claim(node: &str) -> ProtocolComment {
    ProtocolComment::Claim {
        thesis: 7,
        node: node.to_string(),
    }
}

fn attempt(branch: &str) -> ProtocolComment {
    ProtocolComment::Attempt {
        thesis: 7,
        branch: branch.to_string(),
        metric: metric(0.5),
        baseline_metric: None,
        observation: Observation::Improved,
        summary: "better".to_string(),
        annotations: None,
    }
}

#[test]
fn the_record_only_grows() {
    let first = || {
        vec![
            posted(1, "lead", -900, &approval()),
            posted(2, "alice", -800, &claim("n")),
            posted(3, "alice", -700, &attempt("thesis/7-a")),
        ]
    };
    let early = judge(first(), true);
    let mut more = first();
    more.push(posted(4, "alice", -600, &attempt("thesis/7-b")));
    let late = judge(more, true);
    assert_eq!(early.attempts.len(), 1);
    assert_eq!(late.attempts.len(), 2);
    assert_eq!(late.attempts[0].branch, early.attempts[0].branch);
}

#[test]
fn nothing_counts_without_an_approval() {
    let judged = judge(
        vec![
            posted(1, "alice", -900, &claim("n")),
            posted(2, "alice", -800, &attempt("thesis/7-a")),
        ],
        true,
    );
    assert!(judged.active_claims.is_empty());
    assert!(judged.attempts.is_empty());
    assert_eq!(judged.findings.len(), 2);
}

#[test]
fn the_last_word_of_the_maintainer_stands() {
    let judged = judge(
        vec![
            comment(1, "maintainer", -900, "/approve", None),
            comment(2, "maintainer", -800, "/reject too broad", None),
            comment(3, "eve", -700, "/approve", None),
        ],
        false,
    );
    assert!(judged.approved);
    assert!(!judged.maintainer_approved);
    assert!(judged.maintainer_rejected);
}

#[test]
fn a_released_thesis_is_open_again() {
    let state = ThesisState::derive(
        issue(),
        vec![
            posted(1, "lead", -900, &approval()),
            posted(2, "alice", -800, &claim("n")),
            posted(
                3,
                "alice",
                -700,
                &ProtocolComment::Release {
                    thesis: 7,
                    node: "n".to_string(),
                    reason: ReleaseReason::InfraFailure,
                },
            ),
        ],
        &vec![],
        &config(true),
        at(0),
    )
    .unwrap();
    assert_eq!(state.phase, ThesisPhase::Approved);
    assert!(state.active_claims.is_empty());
}

#[test]
fn the_best_metric_is_as_good_as_all() {
    let values = [0.5, -3.0, 0.9, f64::NAN, 0.7];
    let mut best: Option<Metric> = None;
    for value in values {
        best = Some(select_metric(
            best,
            metric(value),
            MetricDirection::HigherIsBetter,
        ));
    }
    assert_eq!(best, Some(metric(0.9)));
}

#[test]
fn the_evaluation_is_always_protected() {
    let everything = EditableSurface::new(vec!["**".to_string()], vec![]);
    for pattern in protected_patterns() {
        let path = if pattern.ends_with('/') {
            format!("{pattern}x")
        } else {
            pattern.clone()
        };
        assert!(!everything.allows_path(&path).unwrap(), "{path}");
        assert_eq!(
            everything.violations_for_paths(&vec![path.clone()]).unwrap(),
            vec![path]
        );
    }
}

#[test]
fn texts_are_ordered_as_their_bytes() {
    let mut set = vec![];
    for s in ["é", "z", "a", "", "\u{10000}", "\u{ffff}", "ab"] {
        insert(&mut set, s.to_string());
    }
    let mut sorted = set.clone();
    sorted.sort();
    assert_eq!(set, sorted);
}

#[test]
fn sorting_keeps_the_order_of_equals() {
    let envelope = |id: u64, secs: i64| ProtocolEnvelope {
        id,
        author: "a".to_string(),
        created_at: at(secs),
        protocol: None,
    };
    let sorted = sort(vec![
        envelope(3, 5),
        envelope(2, 1),
        envelope(1, 5),
        envelope(4, 1),
    ]);
    let ids: Vec<u64> = sorted.iter().map(|e| e.id).collect();
    assert_eq!(ids, vec![2, 4, 1, 3]);
}

#[test]
fn a_written_request_time_keeps_requests_apart() {
    let now = Timestamp {
        secs: 1_700_000_000,
        nanos: 123_456_789,
    };
    let read = read_last_request(&write_last_request(now)).unwrap();
    assert_eq!(
        read,
        Timestamp {
            secs: 1_700_000_000,
            nanos: 123_000_000
        }
    );
    let wait = remaining_delay(read, Delay::from_millis(100), now).unwrap();
    assert!(wait <= Delay::from_millis(100));
    assert!(remaining_delay(now, Delay::from_millis(100), read).is_none());
}

#[test]
fn outcomes_have_words() {
    assert_eq!(Outcome::NonImprovement.text(), "non_improvement");
    assert_eq!(Outcome::PolicyRejection.to_name(), "PolicyRejection");
}

#[test]
fn acknowledging_takes_only_findings_away() {
    let note = ProtocolComment::AdminNote {
        action: "acknowledge_invalid".to_string(),
        target: "issue #7".to_string(),
        note: "known".to_string(),
        related_comment_id: Some(4),
    };
    let trail = || {
        vec![
            posted(1, "lead", -900, &approval()),
            posted(2, "alice", -800, &claim("n")),
            posted(3, "alice", -700, &attempt("thesis/7-a")),
            posted(4, "bob", -600, &claim("m")),
            posted(5, "eve", -500, &claim("o")),
        ]
    };
    let without = judge(trail(), true);
    let mut comments = trail();
    comments.insert(0, posted(6, "lead", -950, &note));
    let with = judge(comments, true);
    assert_eq!(without.findings.len(), 2);
    assert_eq!(with.findings.len(), 1);
    assert_eq!(with.findings[0].comment_id, Some(5));
    assert_eq!(with.findings[0].message, without.findings[1].message);
    assert_eq!(with.approved, without.approved);
    assert_eq!(with.active_claims.len(), without.active_claims.len());
    assert_eq!(with.attempts.len(), without.attempts.len());
    assert!(with.invalidated_attempt_branches.is_empty());
}

#[test]
fn labels_change_nothing() {
    let derive = |labels: Vec<Label>| {
        let mut issue_comments = HashMap::new();
        issue_comments.insert(
            7,
            vec![
                posted(1, "lead", -900, &approval()),
                posted(2, "alice", -800, &claim("n")),
            ],
        );
        RepositoryState::derive_from_fetched(
            vec![Issue { labels, ..issue() }],
            vec![],
            &mut issue_comments,
            &mut HashMap::new(),
            &config(true),
            at(0),
        )
        .unwrap()
    };
    let bare = derive(vec![]);
    let labelled = derive(vec![Label {
        name: "rejected".to_string(),
    }]);
    assert_eq!(bare.theses[0].phase, ThesisPhase::Claimed);
    assert_eq!(labelled.theses[0].phase, ThesisPhase::Claimed);
    assert_eq!(labelled.active_nodes, bare.active_nodes);
    assert_eq!(labelled.queue_depth, bare.queue_depth);
    assert_eq!(labelled.recent_events.len(), bare.recent_events.len());
}

#[test]
fn plain_words_are_read_again() {
    let words = shell_words("  run\t--fast   a.b=c ");
    assert_eq!(words, vec!["run", "--fast", "a.b=c"]);
    assert_eq!(shell_words(&words.join(" ")), words);
    assert!(shell_words(" \t ").is_empty());
}

#[test]
fn slugs_keep_letters_and_stay() {
    let slug = slugify("  Try: A/B -- testing, v2!");
    assert_eq!(slug, "try-a-b-testing-v2");
    assert_eq!(slug.replace('-', ""), "tryabtestingv2");
    assert_eq!(slugify(&slug), slug);
    assert_eq!(slugify("---"), "");
}

#[test]
fn paths_and_directories_cover_themselves() {
    let program = ProgramSpec::from_globs(
        vec![],
        vec!["a,b].txt".to_string(), "docs/".to_string()],
    );
    assert!(program.is_protected("a,b].txt"));
    assert!(!program.is_protected("x/a,b].txt"));
    assert!(program.is_protected("docs/a/b.md"));
    assert!(!program.is_protected("docs"));
    let bad = EditableSurface::new(vec!["[".to_string()], vec![]);
    assert!(bad.allows_path("PROGRAM.md").is_err());
    assert!(bad.allows_path(".polyresearch/run.sh").is_err());
}
