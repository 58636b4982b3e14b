use polyresearch::cycle_guard::{check_cycle_limit, guard_path, ACTIVE_STATE, DONE_STATE};
use polyresearch::editable_surface::{working_tree_changes, EditableSurface, StageVerdict};
use polyresearch::github_debug::{
    collect_debug_highlights, enabled, init, is_rate_limit_command, parse_truthy_flag,
    make_bucket, render_command, summarize_rate_limit, summarize_rate_limit_stdout, DebugState,
};
use polyresearch::ledger::{Ledger, LedgerRow};
use polyresearch::metric::{is_at_most, is_less, is_nan, is_number_literal};
use polyresearch::preflight::{
    check_clean_working_tree, check_root_dangerous_flag, is_root_id, smoke_command, start_failure,
};
use polyresearch::text::{explain_number, lines, number, parse_number, split, trim};
use polyresearch::text_set::insert;
use polyresearch::throttle::{
    default_state_path, read_last_request, remaining_delay, wait_before, write_last_request,
    RequestThrottle,
};
use polyresearch::time::{Delay, Timestamp};

fn args(list: &[&str]) -> Vec<String> {
    list.iter().map(|s| s.to_string()).collect()
}

#[test]
fn parses_truthy_flag_values() {
    assert!(parse_truthy_flag("1"));
    assert!(parse_truthy_flag("true"));
    assert!(parse_truthy_flag("YES"));
    assert!(parse_truthy_flag("api"));
    assert!(!parse_truthy_flag("0"));
    assert!(!parse_truthy_flag("false"));
}

#[test]
fn collects_header_and_request_highlights() {
    let highlights = collect_debug_highlights(
        r#"
* Request at 2026-04-16T13:00:00Z
* Request to https://api.github.com/repos/foo/bar/issues
> GET /repos/foo/bar/issues HTTP/1.1
< HTTP/2.0 200 OK
< x-ratelimit-resource: core
< x-ratelimit-remaining: 4979
< x-github-request-id: ABCD:1234
irrelevant line
"#,
    );

    assert_eq!(highlights.len(), 6);
    assert!(
        highlights
            .iter()
            .any(|line| line.contains("x-ratelimit-resource"))
    );
    assert!(!highlights.iter().any(|line| line.contains("irrelevant")));
}

#[test]
fn parses_existing_rows() {
    let row = LedgerRow {
        thesis: "#12".to_string(),
        attempt: "thesis/12-rmsnorm-attempt-1".to_string(),
        metric: "0.9934".to_string(),
        baseline: "0.9979".to_string(),
        status: "accepted".to_string(),
        summary: "RMSNorm instead of LayerNorm".to_string(),
    };
    assert_eq!(row.status, "accepted");
}

#[test]
fn summarizes_all_rate_limit_buckets() {
    let summary = summarize_rate_limit_stdout(
        &args(&["api", "rate_limit"]),
        &br#"{
              "resources": {
                "core": {"limit": 5000, "remaining": 4979, "used": 21},
                "graphql": {"limit": 5000, "remaining": 4998, "used": 2}
              }
            }"#
        .to_vec(),
    )
    .unwrap();
    assert!(summary.contains("core=4979/5000 used=21"));
    assert!(summary.contains("graphql=4998/5000 used=2"));
}

#[test]
fn limits_without_all_numbers_are_not_told() {
    let asked = args(&["api", "rate_limit"]);
    let told = |answer: &str| summarize_rate_limit_stdout(&asked, &answer.as_bytes().to_vec());
    assert_eq!(
        told(r#"{"resources": {"b": {"limit": 9, "remaining": 8, "used": 1},
            "c": {"limit": 9, "remaining": 8},
            "d": {"limit": -9, "remaining": 8, "used": 1},
            "e": 5,
            "a": {"limit": 7, "remaining": 6, "used": 1, "reset": 0}}}"#),
        Some("a=6/7 used=1, b=8/9 used=1".to_string())
    );
    assert_eq!(told(r#"{"resources": {}}"#), Some(String::new()));
    assert_eq!(told(r#"{"resources": []}"#), None);
    assert_eq!(told("{}"), None);
    assert_eq!(told("no answer"), None);
    assert!(make_bucket("a".to_string(), Some(1), None, Some(3)).is_none());
    let bucket = make_bucket("a".to_string(), Some(1), Some(2), Some(3)).unwrap();
    assert_eq!((bucket.limit, bucket.remaining, bucket.used), (1, 2, 3));
    assert_eq!(
        summarize_rate_limit(&asked, &vec![bucket]),
        Some("a=2/1 used=3".to_string())
    );
}

#[test]
fn ignores_non_rate_limit_commands_for_bucket_summaries() {
    assert!(summarize_rate_limit_stdout(&args(&["issue", "list"]), &b"{}".to_vec()).is_none());
    assert!(summarize_rate_limit(&args(&["issue", "list"]), &vec![]).is_none());
    assert!(!is_rate_limit_command(&args(&["issue", "list"])));
}

#[test]
fn debugging_is_switched_on_by_flag_or_variable() {
    assert_eq!(init(true, None), DebugState::Enabled);
    assert_eq!(init(false, Some("1")), DebugState::Enabled);
    assert_eq!(init(false, None), DebugState::Disabled);
    assert!(enabled(DebugState::Unset, Some("yes")));
    assert!(!enabled(DebugState::Disabled, Some("yes")));
}

#[test]
fn commands_are_shown_in_one_line() {
    assert_eq!(render_command(&args(&["gh", "api", "user"])), "gh api user");
}

#[test]
fn create_writes_active_guard() {
    assert_eq!(ACTIVE_STATE, "active");
    assert!(guard_path("/repo").starts_with("/repo/"));
}

#[test]
fn check_returns_ok_when_active() {
    check_cycle_limit(Some(ACTIVE_STATE)).unwrap();
}

#[test]
fn check_returns_err_when_done() {
    let error = check_cycle_limit(Some(DONE_STATE)).unwrap_err();
    assert!(error.contains("cycle limit"));
}

#[test]
fn check_returns_ok_when_env_unset() {
    check_cycle_limit(None).unwrap();
}

#[test]
fn validate_staged_files_rejects_protected_paths() {
    let surface = EditableSurface::new(vec!["src/".to_string()], vec![]);
    let violations = surface
        .validate_staged_files(".polyresearch/result.json\nsrc/app.ts\n")
        .unwrap();
    assert_eq!(violations, vec![".polyresearch/result.json".to_string()]);
}

#[test]
fn stage_and_validate_commits_only_allowed_changes() {
    let surface = EditableSurface::new(vec!["src/".to_string()], vec![]);
    let changes = working_tree_changes("src/app.ts", "", ".polyresearch/result.json");
    let staged = surface.paths_to_stage(&changes).unwrap();
    assert_eq!(staged, vec!["src/app.ts".to_string()]);
    assert!(matches!(
        surface.judge_staged("src/app.ts").unwrap(),
        StageVerdict::Commit
    ));
    assert!(matches!(
        surface.judge_staged("").unwrap(),
        StageVerdict::Nothing { .. }
    ));
    match surface.judge_staged("src/app.ts\nPROGRAM.md").unwrap() {
        StageVerdict::Unstage { message } => assert!(message.contains("PROGRAM.md")),
        other => panic!("unexpected verdict {other:?}"),
    }
}

#[test]
fn protected_files_stay_out_of_reach() {
    let surface = EditableSurface::new(vec!["**".to_string()], vec!["docs/".to_string()]);
    assert!(surface.allows_path("src/a.rs").unwrap());
    assert!(!surface.allows_path("PROGRAM.md").unwrap());
    assert!(!surface.allows_path(".polyresearch/run.sh").unwrap());
    assert!(!surface.allows_path("docs/a.md").unwrap());
    let bad = EditableSurface::new(vec!["{".to_string()], vec![]);
    assert!(bad.allows_path("a").is_err());
}

#[test]
fn clean_tree_passes() {
    assert!(check_clean_working_tree(true, true, "").is_ok());
}

#[test]
fn dirty_tree_fails() {
    let msg = check_clean_working_tree(false, true, " M README.md\n").unwrap_err();
    assert!(msg.contains("uncommitted"), "error should mention uncommitted: {msg}");
    assert!(msg.contains("README.md"), "error should list the file: {msg}");
}

#[test]
fn untracked_files_are_ignored() {
    assert!(check_clean_working_tree(true, true, "?? new-file.txt\n").is_ok());
}

#[test]
fn dirty_tree_with_staged_changes_fails() {
    assert!(check_clean_working_tree(true, false, "M  README.md\n").is_err());
}

#[test]
fn smoke_test_working_command() {
    let parts = smoke_command("echo ok").unwrap();
    assert_eq!(parts[0], "echo");
    assert_eq!(parts[1], "ok");
    assert_eq!(parts.last().unwrap(), "Respond with exactly: PREFLIGHT_OK");
    assert!(smoke_command("").is_err());
}

#[test]
fn smoke_test_nonexistent_binary() {
    let msg = start_failure("/nonexistent/binary", "No such file or directory");
    assert!(msg.contains("failed to start"), "error should mention start failure: {msg}");
}

#[test]
fn root_flag_check_safe_for_non_root() {
    let result = check_root_dangerous_flag("agent -p --dangerously-skip-permissions", false, "agent");
    assert!(result.is_ok(), "non-root should pass: {result:?}");
}

#[test]
fn root_flag_check_passes_without_flag() {
    let result = check_root_dangerous_flag("agent -p", true, "agent");
    assert!(
        result.is_ok(),
        "command without the flag should always pass: {result:?}"
    );
    assert_eq!(
        check_root_dangerous_flag("agent -p --dangerously-skip-permissions", true, "agent"),
        Err("pre-flight: running as root with --dangerously-skip-permissions is not supported\nHint: add allowed tools to ~/.agent/settings.json instead, or run as a non-root user".to_string())
    );
    assert!(is_root_id("0\n"));
    assert!(!is_root_id("1000\n"));
}

#[test]
fn second_request_waits_for_the_configured_gap() {
    let throttle = RequestThrottle {
        request_delay: Delay::from_millis(40),
        state_path: "state".to_string(),
    };
    let first = Timestamp {
        secs: 1_700_000_000,
        nanos: 0,
    };
    let soon = Timestamp {
        secs: 1_700_000_000,
        nanos: 15_000_000,
    };
    let contents = write_last_request(first);
    assert_eq!(
        wait_before(&throttle, &contents, soon),
        Some(Delay::from_millis(25))
    );
    assert_eq!(read_last_request(&contents), Some(first));
}

#[test]
fn invalid_state_file_is_treated_as_empty() {
    let throttle = RequestThrottle {
        request_delay: Delay::from_millis(5),
        state_path: "state".to_string(),
    };
    let now = Timestamp {
        secs: 1_700_000_000,
        nanos: 1,
    };
    assert_eq!(wait_before(&throttle, "not-a-timestamp", now), None);
    assert!(write_last_request(now).trim().parse::<u128>().is_ok());
}

#[test]
fn zero_delay_skips_creating_the_state_file() {
    let throttle = polyresearch::throttle::init(0, Some("/home/a"), "/tmp");
    assert_eq!(throttle.request_delay, Delay::from_millis(0));
    assert_eq!(throttle.state_path, default_state_path(Some("/home/a"), "/tmp"));
    let now = Timestamp { secs: 5, nanos: 0 };
    assert_eq!(wait_before(&throttle, &write_last_request(now), now), None);
}

#[test]
fn older_requests_do_not_overflow_or_wait() {
    let last_request_at = Timestamp { secs: 1, nanos: 0 };
    let now = Timestamp {
        secs: 1_776_000_000,
        nanos: 0,
    };
    assert_eq!(
        remaining_delay(last_request_at, Delay::from_millis(5), now),
        None
    );
}

#[test]
fn ledgers_are_read_and_written() {
    let mut ledger = Ledger::load(
        "/repo",
        Some("thesis\tattempt\tmetric\tbaseline\tstatus\tsummary\n#1\tthesis/1-a\t0.5\t0.4\taccepted\tgood\n"),
    );
    assert_eq!(ledger.rows.len(), 1);
    assert!(ledger.contains_attempt("thesis/1-a"));
    assert!(!ledger.contains_attempt("thesis/1-b"));
    let row = LedgerRow {
        thesis: "#2".to_string(),
        attempt: "thesis/2-b".to_string(),
        metric: "0.6".to_string(),
        baseline: "0.5".to_string(),
        status: "discarded".to_string(),
        summary: "no".to_string(),
    };
    let text = ledger.append_rows(&vec![row.clone()]).unwrap();
    let again = Ledger::load("/repo", Some(&text));
    assert_eq!(again.rows, ledger.rows);
    assert_eq!(again.rows[1], row);
    assert!(ledger.append_rows(&vec![]).is_none());
}

#[test]
fn metrics_are_ordered_as_numbers() {
    let b = |v: f64| v.to_bits();
    assert!(is_less(b(-1.0), b(1.0)));
    assert!(is_less(b(-2.0), b(-1.0)));
    assert!(!is_less(b(0.0), b(-0.0)));
    assert!(is_at_most(b(0.0), b(-0.0)));
    assert!(!is_less(b(f64::NAN), b(1.0)));
    assert!(!is_at_most(b(f64::NAN), b(f64::NAN)));
    assert!(is_nan(b(f64::NAN)));
    assert!(is_less(b(1e300), b(f64::INFINITY)));
}

#[test]
fn number_literals_are_those_that_parse() {
    for s in [
        "1", "1.5", ".5", "5.", "-2e10", "+3E-4", "inf", "-Infinity", "nan", "", ".", "e5", "1e",
        "1 ", "--1", "0x10", "1_000", "infin", "1.2.3", "NaN", "+", "1e+", "1.e3",
    ] {
        assert_eq!(is_number_literal(s), s.parse::<f64>().is_ok(), "{s}");
    }
}

#[test]
fn text_tools_agree_with_the_standard_ones() {
    for s in ["", " a b ", "x\r\ny\n\nz", "\u{a0}q\u{3000}", "a,b,,c", "\n"] {
        assert_eq!(trim(s), s.trim());
        assert_eq!(lines(s), s.lines().collect::<Vec<_>>());
        assert_eq!(split(s, ","), s.split(',').collect::<Vec<_>>());
    }
    for s in ["0", "00012", "+7", "-1", "", "18446744073709551615", "18446744073709551616", "1a"] {
        assert_eq!(parse_number(s, u64::MAX), s.parse::<u64>().ok(), "{s}");
        if let Err(e) = s.parse::<u64>() {
            assert_eq!(explain_number(s, u64::MAX), e.to_string());
        }
    }
    assert_eq!(number(0), "0");
    assert_eq!(number(u64::MAX), u64::MAX.to_string());
}

#[test]
fn sets_of_texts_stay_ordered() {
    let mut set = vec![];
    for s in ["b", "a", "c", "a", "é", "B"] {
        insert(&mut set, s.to_string());
    }
    assert_eq!(set, vec!["B", "a", "b", "c", "é"]);
}
