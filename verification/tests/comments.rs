use polyresearch::block::{find_block, lookup, parse_fields};
use polyresearch::comments::{
    literals, parse_attempt_annotations, AttemptAnnotation, Observation, Outcome, ProtocolComment,
    Readings, ReleaseReason,
};
use polyresearch::metric::Metric;
use polyresearch::time::Timestamp;

fn metric(value: f64) -> Metric {
    Metric {
        bits: value.to_bits(),
        text: format!("{value:.4}"),
    }
}

fn no_readings() -> Readings {
    Readings {
        metric: None,
        baseline_metric: None,
        annotations: None,
    }
}

fn readings(body: &str, annotations: Option<Vec<AttemptAnnotation>>) -> Readings {
    let found = literals(body);
    Readings {
        metric: found.metric.and_then(|m| m.parse().ok()).map(metric),
        baseline_metric: found.baseline_metric.and_then(|m| m.parse().ok()).map(metric),
        annotations,
    }
}

fn reread(comment: &ProtocolComment) -> ProtocolComment {
    let text = comment.render();
    ProtocolComment::parse(&text, readings(&text, None)).unwrap().unwrap()
}

#[test]
fn parses_attempt_comments() {
    let body = r#"Polyresearch attempt: thesis #12, branch `thesis/12-rmsnorm-attempt-1`, metric `0.9934`, observation `improved`.

<!-- polyresearch:attempt
thesis: 12
branch: thesis/12-rmsnorm-attempt-1
metric: 0.9934
baseline_metric: 0.9979
observation: improved
summary: RMSNorm instead of LayerNorm
-->"#;

    let parsed = ProtocolComment::parse(body, readings(body, None)).unwrap().unwrap();
    match parsed {
        ProtocolComment::Attempt {
            thesis,
            metric,
            baseline_metric: Some(baseline_metric),
            observation,
            ..
        } => {
            assert_eq!(thesis, 12);
            assert_eq!(observation, Observation::Improved);
            assert!((f64::from_bits(metric.bits) - 0.9934).abs() < f64::EPSILON);
            assert!((f64::from_bits(baseline_metric.bits) - 0.9979).abs() < f64::EPSILON);
        }
        other => panic!("unexpected comment {other:?}"),
    }
}

#[test]
fn parses_attempt_comments_with_annotations() {
    let body = r#"Polyresearch attempt: thesis #12, branch `thesis/12-rmsnorm-attempt-1`, metric `0.9934`, observation `improved`.

Annotations:
- [failure_analysis] task `task-7`: Tool selection drifted after step 2

<!-- polyresearch:attempt
thesis: 12
branch: thesis/12-rmsnorm-attempt-1
metric: 0.9934
baseline_metric: 0.9979
observation: improved
summary: RMSNorm instead of LayerNorm
annotations: [{"category":"failure_analysis","task_id":"task-7","text":"Tool selection drifted after step 2"}]
-->"#;
    let literal = literals(body).annotations.unwrap();
    let value: serde_json::Value = serde_json::from_str(&literal).unwrap();
    let list = value
        .as_array()
        .unwrap()
        .iter()
        .map(|a| AttemptAnnotation {
            category: a["category"].as_str().unwrap().to_string(),
            task_id: a["task_id"].as_str().map(str::to_string),
            text: a["text"].as_str().unwrap().to_string(),
        })
        .collect::<Vec<_>>();

    let parsed = ProtocolComment::parse(body, readings(body, Some(list))).unwrap().unwrap();
    assert_eq!(
        parsed,
        ProtocolComment::Attempt {
            thesis: 12,
            branch: "thesis/12-rmsnorm-attempt-1".to_string(),
            metric: metric(0.9934),
            baseline_metric: Some(metric(0.9979)),
            observation: Observation::Improved,
            summary: "RMSNorm instead of LayerNorm".to_string(),
            annotations: Some(vec![AttemptAnnotation {
                category: "failure_analysis".to_string(),
                task_id: Some("task-7".to_string()),
                text: "Tool selection drifted after step 2".to_string(),
            }]),
        }
    );
}

#[test]
fn renders_and_parses_annotation_comments() {
    let comment = ProtocolComment::Annotation {
        thesis: 12,
        node: "alice/node-7f83".to_string(),
        text: "Tried the retrieval-heavy direction twice. It regressed on tool-use tasks."
            .to_string(),
    };

    let rendered = comment.render();
    assert!(rendered.contains("Polyresearch annotation: thesis #12 by node `alice/node-7f83`."));
    assert!(rendered.contains("Tried the retrieval-heavy direction twice."));
    assert_eq!(
        ProtocolComment::parse(&rendered, no_readings()).unwrap().unwrap(),
        comment
    );
}

#[test]
fn renders_claim_comments_with_summary() {
    let comment = ProtocolComment::Claim {
        thesis: 42,
        node: "node-7f83".to_string(),
    };
    let rendered = comment.render();
    assert!(rendered.starts_with("Polyresearch claim: thesis #42 by node `node-7f83`."));
    assert!(rendered.contains("<!-- polyresearch:claim"));
    assert!(rendered.contains("node: node-7f83"));
}

#[test]
fn parses_slash_commands_with_optional_reasons() {
    let approve = ProtocolComment::parse("/approve focus on normalization", no_readings())
        .unwrap()
        .unwrap();
    let reject = ProtocolComment::parse("/reject this is too broad", no_readings())
        .unwrap()
        .unwrap();
    let not_a_match = ProtocolComment::parse("/approved", no_readings()).unwrap();

    assert_eq!(
        approve,
        ProtocolComment::SlashApprove {
            reason: Some("focus on normalization".to_string())
        }
    );
    assert_eq!(
        reject,
        ProtocolComment::SlashReject {
            reason: Some("this is too broad".to_string())
        }
    );
    assert!(not_a_match.is_none());
}

#[test]
fn every_kind_of_comment_reads_back() {
    let comments = vec![
        ProtocolComment::Approval { thesis: 3 },
        ProtocolComment::Claim {
            thesis: 3,
            node: "a/n".to_string(),
        },
        ProtocolComment::Release {
            thesis: 3,
            node: "a/n".to_string(),
            reason: ReleaseReason::Timeout,
        },
        ProtocolComment::Attempt {
            thesis: 3,
            branch: "thesis/3-x".to_string(),
            metric: metric(0.5),
            baseline_metric: None,
            observation: Observation::Crashed,
            summary: "fell over".to_string(),
            annotations: None,
        },
        ProtocolComment::PolicyPass {
            thesis: 3,
            candidate_sha: "abc".to_string(),
        },
        ProtocolComment::ReviewClaim {
            thesis: 3,
            node: "b/n".to_string(),
        },
        ProtocolComment::Review {
            thesis: 3,
            candidate_sha: "abc".to_string(),
            base_sha: "def".to_string(),
            node: "b/n".to_string(),
            metric: metric(1.25),
            baseline_metric: metric(1.0),
            observation: Observation::Improved,
            env_sha: Some("123".to_string()),
            timestamp: Timestamp {
                secs: 1_700_000_000,
                nanos: 500_000_000,
            },
        },
        ProtocolComment::Decision {
            thesis: 3,
            candidate_sha: "abc".to_string(),
            outcome: Outcome::NonImprovement,
            confirmations: 2,
        },
        ProtocolComment::AdminNote {
            action: "acknowledge_invalid".to_string(),
            target: "issue #3".to_string(),
            note: "seen".to_string(),
            related_comment_id: Some(9),
        },
    ];
    for comment in comments {
        assert_eq!(reread(&comment), comment);
    }
}

#[test]
fn times_are_written_as_in_the_standard() {
    let comment = ProtocolComment::Review {
        thesis: 1,
        candidate_sha: "a".to_string(),
        base_sha: "b".to_string(),
        node: "n".to_string(),
        metric: metric(1.0),
        baseline_metric: metric(1.0),
        observation: Observation::NoImprovement,
        env_sha: None,
        timestamp: Timestamp {
            secs: 1_700_000_000,
            nanos: 0,
        },
    };
    assert!(comment.render().contains("timestamp: 2023-11-14T22:13:20+00:00"));
}

#[test]
fn incomplete_blocks_are_plain_text() {
    for body in [
        "<!-- polyresearch:claim\nthesis: 4\n-->",
        "<!-- polyresearch:approval\nthesis: four\n-->",
        "<!-- polyresearch:party\nthesis: 4\n-->",
        "<!-- polyresearch:release\nthesis: 4\nnode: n\nreason: bored\n-->",
        "just text",
    ] {
        assert!(ProtocolComment::parse(body, no_readings()).unwrap().is_none());
    }
}

#[test]
fn quoted_blocks_are_plain_text() {
    let quoted = "> <!-- polyresearch:approval\nthesis: 4\n-->";
    assert!(ProtocolComment::parse(quoted, no_readings()).unwrap().is_none());
}

#[test]
fn annotations_need_a_category_and_a_text() {
    let full = AttemptAnnotation {
        category: "c".to_string(),
        task_id: None,
        text: "t".to_string(),
    };
    let blank = AttemptAnnotation {
        category: " ".to_string(),
        task_id: None,
        text: "t".to_string(),
    };
    assert_eq!(parse_attempt_annotations(Ok(vec![full])).unwrap().len(), 1);
    assert!(parse_attempt_annotations(Ok(vec![blank])).is_err());
    assert!(parse_attempt_annotations(Err("no list".to_string())).is_err());
}

#[test]
fn annotations_are_shown_and_written_as_json() {
    let comment = ProtocolComment::Attempt {
        thesis: 3,
        branch: "thesis/3-x".to_string(),
        metric: metric(0.5),
        baseline_metric: None,
        observation: Observation::Improved,
        summary: "s".to_string(),
        annotations: Some(vec![AttemptAnnotation {
            category: "c".to_string(),
            task_id: Some("t1".to_string()),
            text: "say \"hi\"".to_string(),
        }]),
    };
    let text = comment.render();
    assert!(text.contains("- [c] task `t1`: say \"hi\""));
    assert!(text.contains(r#""text":"say \"hi\"""#));
    assert_eq!(comment.attempt_annotations().unwrap().len(), 1);
}

#[test]
fn words_read_back() {
    for o in [
        Observation::Improved,
        Observation::NoImprovement,
        Observation::Crashed,
        Observation::InfraFailure,
    ] {
        assert_eq!(Observation::from_text(&o.text()), Some(o));
    }
    for r in [
        ReleaseReason::NoImprovement,
        ReleaseReason::Timeout,
        ReleaseReason::InfraFailure,
    ] {
        assert_eq!(ReleaseReason::from_text(&r.text()), Some(r));
    }
    for o in [
        Outcome::Accepted,
        Outcome::NonImprovement,
        Outcome::Disagreement,
        Outcome::Stale,
        Outcome::PolicyRejection,
        Outcome::InfraFailure,
    ] {
        assert_eq!(Outcome::from_text(&o.text()), Some(o));
    }
    assert_eq!(Outcome::from_text("maybe"), None);
}

#[test]
fn blocks_are_found_where_their_pattern_is() {
    let pattern = regex::Regex::new(r"(?s)<!--\s*polyresearch:([a-z-]+)\s*\n(.*?)-->").unwrap();
    let pieces = [
        "<!--", "-->", "polyresearch:", "claim", "review-claim", "-", " ", "\n", "\t", "\r\n",
        "thesis: 4", "<!-- polyresearch:claim\n", "X", "\u{a0}", "é", "\u{2028}", ">", "\n\n",
    ];
    let mut seed: u64 = 12345;
    for _ in 0..20_000 {
        let mut body = String::new();
        for _ in 0..9 {
            seed = seed.wrapping_mul(6364136223846793005).wrapping_add(1442695040888963407);
            body.push_str(pieces[(seed >> 33) as usize % pieces.len()]);
        }
        let found = find_block(&body);
        match pattern.captures(&body) {
            None => assert!(found.is_none(), "{body:?}"),
            Some(captures) => {
                let found = found.unwrap();
                let start = body[..captures.get(0).unwrap().start()].chars().count();
                assert_eq!(found.start, start, "{body:?}");
                assert_eq!(found.kind, &captures[1], "{body:?}");
                assert_eq!(found.payload, &captures[2], "{body:?}");
            }
        }
    }
}

#[test]
fn fields_are_read_line_by_line() {
    let fields = parse_fields("a: 1\n  b :two words  \nno field\n\na: 3\n");
    assert_eq!(lookup(&fields, "a"), Some("3".to_string()));
    assert_eq!(lookup(&fields, "b"), Some("two words".to_string()));
    assert_eq!(lookup(&fields, "c"), None);
}
