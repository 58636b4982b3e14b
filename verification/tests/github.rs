use polyresearch::github::{
    after_failure, capped_delay, classify_retry, error_with_hint, found_issues, found_login, gh_api,
    issues_enabled, jittered_delay, login_of, require_json,
    parse_retry_after, resolve_rate_limit_delay, retry_notice, server_jittered_delay,
    wait_for_reset, ApiField, GitHubClient, IssueListState, RateLimitBucket, RateLimitKind,
    RepoRef, RetryReason, RetryStep, MAX_RETRY_SECS,
};
use polyresearch::time::{Delay, Timestamp};

fn at(secs: i64) -> Timestamp {
    Timestamp { secs, nanos: 0 }
}

fn client() -> GitHubClient {
    GitHubClient::new(RepoRef {
        owner: "owner".to_string(),
        name: "repo".to_string(),
    })
}

#[test]
fn classifies_primary_rate_limit_errors_without_extra_api_calls() {
    assert_eq!(
        classify_retry("API rate limit exceeded for user", true),
        Some(RetryReason::RateLimited(RateLimitKind::Primary))
    );
}

#[test]
fn classifies_secondary_rate_limit_errors_from_github_messages() {
    assert_eq!(
        classify_retry(
            "You have exceeded a secondary rate limit. Please wait a few minutes before you try again.",
            true
        ),
        Some(RetryReason::RateLimited(RateLimitKind::Secondary))
    );
}

#[test]
fn classifies_retry_after_and_http_429_as_secondary_limits() {
    assert_eq!(
        classify_retry("HTTP 429\nRetry-After: 120", true),
        Some(RetryReason::RateLimited(RateLimitKind::Secondary))
    );
}

#[test]
fn cap_applies_to_parsed_retry_after() {
    let large = parse_retry_after("Retry-After: 5000").unwrap();
    assert_eq!(capped_delay(large), Delay::from_secs(MAX_RETRY_SECS));

    let small = parse_retry_after("Retry-After: 60").unwrap();
    assert_eq!(capped_delay(small), Delay::from_secs(60));
}

#[test]
fn zero_or_negative_reset_time_produces_small_delay() {
    assert_eq!(capped_delay(Delay::from_secs(5)), Delay::from_secs(5));
    assert_eq!(capped_delay(Delay::from_secs(0)), Delay::from_secs(0));
}

#[test]
fn parse_retry_after_extracts_value_from_stderr() {
    assert_eq!(
        parse_retry_after("HTTP 429\nRetry-After: 120"),
        Some(Delay::from_secs(120))
    );
    assert_eq!(parse_retry_after("no header here"), None);
}

#[test]
fn parse_url_handles_https() {
    let r = RepoRef::parse_url("https://github.com/owner/repo").unwrap();
    assert_eq!(r.owner, "owner");
    assert_eq!(r.name, "repo");
}

#[test]
fn parse_url_handles_https_with_git_suffix() {
    let r = RepoRef::parse_url("https://github.com/owner/repo.git").unwrap();
    assert_eq!(r.owner, "owner");
    assert_eq!(r.name, "repo");
}

#[test]
fn parse_url_handles_ssh() {
    let r = RepoRef::parse_url("git@github.com:owner/repo.git").unwrap();
    assert_eq!(r.owner, "owner");
    assert_eq!(r.name, "repo");
}

#[test]
fn parse_url_returns_none_for_garbage() {
    assert!(RepoRef::parse_url("not-a-url").is_none());
}

#[test]
fn parse_url_returns_none_for_empty_parts() {
    assert!(RepoRef::parse_url("https://github.com//").is_none());
}

#[test]
fn parse_url_handles_trailing_slash() {
    let r = RepoRef::parse_url("https://github.com/owner/repo/").unwrap();
    assert_eq!(r.owner, "owner");
    assert_eq!(r.name, "repo");
}

#[test]
fn parse_url_rejects_non_github_urls() {
    assert!(RepoRef::parse_url("https://gitlab.com/owner/repo").is_none());
    assert!(RepoRef::parse_url("https://bitbucket.org/owner/repo").is_none());
    assert!(RepoRef::parse_url("https://example.com/owner/repo").is_none());
}

#[test]
fn parse_url_rejects_extra_path_segments() {
    assert!(RepoRef::parse_url("https://github.com/owner/repo/tree/main").is_none());
    assert!(RepoRef::parse_url("https://github.com/owner/repo/pulls").is_none());
}

#[test]
fn parse_url_rejects_owner_only() {
    assert!(RepoRef::parse_url("https://github.com/owner").is_none());
    assert!(RepoRef::parse_url("https://github.com/owner/").is_none());
}

#[test]
fn parse_url_handles_www_github() {
    let r = RepoRef::parse_url("https://www.github.com/owner/repo").unwrap();
    assert_eq!(r.owner, "owner");
    assert_eq!(r.name, "repo");
}

#[test]
fn parse_url_handles_http_www_github() {
    let r = RepoRef::parse_url("http://www.github.com/owner/repo.git").unwrap();
    assert_eq!(r.owner, "owner");
    assert_eq!(r.name, "repo");
}

#[test]
fn from_user_input_accepts_shorthand() {
    let r = RepoRef::from_user_input("alanzabihi/dotenv").unwrap();
    assert_eq!(r.owner, "alanzabihi");
    assert_eq!(r.name, "dotenv");
}

#[test]
fn from_user_input_accepts_https_url() {
    let r = RepoRef::from_user_input("https://github.com/owner/repo").unwrap();
    assert_eq!(r.owner, "owner");
    assert_eq!(r.name, "repo");
}

#[test]
fn from_user_input_accepts_www_url() {
    let r = RepoRef::from_user_input("https://www.github.com/owner/repo").unwrap();
    assert_eq!(r.owner, "owner");
    assert_eq!(r.name, "repo");
}

#[test]
fn from_user_input_accepts_ssh_url() {
    let r = RepoRef::from_user_input("git@github.com:owner/repo.git").unwrap();
    assert_eq!(r.owner, "owner");
    assert_eq!(r.name, "repo");
}

#[test]
fn from_user_input_rejects_bare_owner() {
    assert!(RepoRef::from_user_input("owner").is_err());
}

#[test]
fn from_user_input_rejects_extra_path_segments() {
    assert!(RepoRef::from_user_input("owner/repo/tree/main").is_err());
    assert!(RepoRef::from_user_input("owner/repo/pulls").is_err());
}

#[test]
fn parse_rejects_extra_path_segments() {
    assert!(RepoRef::parse("owner/repo/extra").is_err());
    assert!(RepoRef::parse("owner/repo/tree/main").is_err());
}

#[test]
fn parse_rejects_empty_parts() {
    assert!(RepoRef::parse("/name").is_err());
    assert!(RepoRef::parse("owner/").is_err());
}

#[test]
fn from_user_input_rejects_non_github_urls() {
    assert!(RepoRef::from_user_input("https://gitlab.com/owner/repo").is_err());
    assert!(RepoRef::from_user_input("https://bitbucket.org/owner/repo").is_err());
}

#[test]
fn clone_url_produces_https() {
    let r = RepoRef {
        owner: "alanzabihi".to_string(),
        name: "dotenv".to_string(),
    };
    assert_eq!(r.clone_url(), "https://github.com/alanzabihi/dotenv.git");
}

#[test]
fn jittered_delay_stays_within_plus_minus_50_percent() {
    let low = Delay::from_secs(45);
    let high = Delay::from_secs(135);
    for _ in 0..1_000 {
        let jittered = jittered_delay(Delay::from_secs(90));
        assert!(
            jittered >= low && jittered <= high,
            "jittered delay {jittered:?} fell outside [{low:?}, {high:?}]"
        );
    }
}

#[test]
fn jittered_delay_noops_for_zero_base() {
    assert_eq!(jittered_delay(Delay::from_secs(0)), Delay::from_secs(0));
}

#[test]
fn retry_duration_is_capped_at_max() {
    let parsed = parse_retry_after("HTTP 429\nRetry-After: 3000").unwrap();
    assert_eq!(parsed, Delay::from_secs(3000));
    for _ in 0..100 {
        let result = capped_delay(server_jittered_delay(parsed));
        assert!(result <= Delay::from_secs(MAX_RETRY_SECS));
    }
}

#[test]
fn secondary_rate_limit_uses_short_backoff() {
    let stderr = "secondary rate limit hit";
    let bases: [u64; 3] = [90, 180, 300];
    for attempt in 0..3 {
        for _ in 0..100 {
            let delay =
                resolve_rate_limit_delay(RateLimitKind::Secondary, attempt, stderr, None, at(0))
                    .unwrap();
            let millis = delay.as_millis();
            let base = u128::from(bases[attempt]) * 1000;
            assert!(millis >= base / 2 && millis <= base + base / 2);
            assert!(delay <= Delay::from_secs(MAX_RETRY_SECS));
        }
    }
}

#[test]
fn primary_rate_limit_cap_limits_large_values() {
    assert_eq!(
        capped_delay(Delay::from_secs(2861)),
        Delay::from_secs(MAX_RETRY_SECS)
    );
    assert_eq!(capped_delay(Delay::from_secs(120)), Delay::from_secs(120));
}

#[test]
fn jitter_varies_across_calls() {
    let mut seen = std::collections::HashSet::new();
    for _ in 0..100 {
        seen.insert(jittered_delay(Delay::from_secs(90)).as_millis());
    }
    assert!(seen.len() >= 2);
}

#[test]
fn server_jittered_delay_stays_within_100_to_150_percent() {
    let base = Delay::from_secs(90);
    let high = Delay::from_secs(135);
    for _ in 0..1_000 {
        let jittered = server_jittered_delay(base);
        assert!(jittered >= base && jittered <= high);
    }
}

#[test]
fn server_jittered_delay_noops_for_zero_base() {
    assert_eq!(server_jittered_delay(Delay::from_secs(0)), Delay::from_secs(0));
}

#[test]
fn spread_delays_keep_parts_of_a_millisecond() {
    let base = Delay {
        secs: 0,
        nanos: 1_900_000,
    };
    let three = Delay::from_millis(3);
    for _ in 0..100 {
        let waited = server_jittered_delay(base);
        assert!(waited >= base && waited.nanos <= 2_850_000);
        assert_eq!(jittered_delay(Delay::from_millis(1)), Delay::from_millis(1));
        let own = jittered_delay(three);
        assert!(own >= Delay::from_millis(2) && own <= Delay::from_millis(4));
    }
    let longest = Delay {
        secs: u64::MAX,
        nanos: 999_999_999,
    };
    assert_eq!(server_jittered_delay(longest), longest);
}

#[test]
fn server_jitter_varies_across_calls() {
    let mut seen = std::collections::HashSet::new();
    for _ in 0..100 {
        seen.insert(server_jittered_delay(Delay::from_secs(90)).as_millis());
    }
    assert!(seen.len() >= 2);
}

#[test]
fn failures_that_do_not_pass_are_given_up() {
    match after_failure(0, "HTTP 404: Not Found".to_string(), true, None, at(0)) {
        RetryStep::GiveUp(m) => assert!(m.contains("404")),
        other => panic!("unexpected step {other:?}"),
    }
    match after_failure(3, "HTTP 429".to_string(), true, None, at(0)) {
        RetryStep::Limited(e) => assert!(e.text().contains("secondary")),
        other => panic!("unexpected step {other:?}"),
    }
    match after_failure(0, "HTTP 502".to_string(), true, None, at(0)) {
        RetryStep::Again { reason, .. } => assert_eq!(reason, RetryReason::Transient),
        other => panic!("unexpected step {other:?}"),
    }
    match after_failure(0, "HTTP 502".to_string(), false, None, at(0)) {
        RetryStep::GiveUp(_) => {}
        other => panic!("unexpected step {other:?}"),
    }
}

#[test]
fn missing_permissions_come_with_a_hint() {
    let plain = error_with_hint("something else");
    assert!(plain.contains("something else"));
}

#[test]
fn retry_notices_name_the_reason() {
    let notice = retry_notice(
        RetryReason::RateLimited(RateLimitKind::Primary),
        Delay::from_secs(7),
    );
    assert!(notice.contains('7'));
    assert!(notice.contains("primary"));
}

#[test]
fn waiting_for_a_reset_leaves_a_margin() {
    let soon = wait_for_reset(at(1_000), at(940));
    assert!(soon >= Delay::from_secs(60));
    let past = wait_for_reset(at(1_000), at(2_000));
    assert!(past <= soon);
}

#[test]
fn requests_carry_their_fields() {
    let r = gh_api(
        "POST",
        "repos/o/r/issues",
        &vec![ApiField::Raw("title", "t"), ApiField::Typed("n", "1")],
    );
    assert!(r.args.contains(&"title=t".to_string()));
    assert!(r.args.contains(&"n=1".to_string()));
    assert!(!r.idempotent);
    assert!(gh_api("GET", "user", &vec![]).idempotent);
    let list = client().list_thesis_issues(IssueListState::All);
    assert!(list.args.contains(&"owner/repo".to_string()));
    assert!(list.idempotent);
    assert!(!client().post_issue_comment(4, "text").idempotent);
    assert_eq!(
        GitHubClient::created_number("https://github.com/owner/repo/issues/42\n"),
        Some(42)
    );
    assert_eq!(GitHubClient::created_number("nothing"), None);
}

#[test]
fn a_reset_lies_on_the_clock() {
    let bucket = RateLimitBucket {
        limit: 5,
        remaining: 1,
        reset: 1_700_000_000,
        used: 4,
    };
    assert_eq!(bucket.reset_at(), Some(at(1_700_000_000)));
    let far = RateLimitBucket {
        reset: i64::MAX as u64,
        ..bucket
    };
    assert_eq!(far.reset_at(), None);
    let wrapped = RateLimitBucket {
        reset: u64::MAX,
        ..bucket
    };
    assert_eq!(wrapped.reset_at(), Some(at(-1)));
}

#[test]
fn a_repository_is_found_by_its_remote() {
    let named = RepoRef::discover(Some("a/b"), Err("no remote".to_string())).unwrap();
    assert_eq!(named.slug(), "a/b");
    let remote = RepoRef::discover(None, Ok("git@github.com:c/d.git\n".to_string())).unwrap();
    assert_eq!(remote.slug(), "c/d");
    assert!(RepoRef::discover(None, Err("no remote".to_string())).is_err());
    assert!(RepoRef::discover(None, Ok("https://example.com/x".to_string())).is_err());
}

#[test]
fn logins_are_read_from_answers() {
    assert_eq!(login_of(r#"{"id": 1, "login": "alice"}"#), Ok("alice".to_string()));
    let missing = Err("GitHub API response did not include `login`".to_string());
    assert_eq!(login_of(r#"{"login": 7}"#), missing);
    assert_eq!(login_of("[]"), missing);
    assert_eq!(found_login(None), missing);
    assert_eq!(found_login(Some("bob".to_string())), Ok("bob".to_string()));
    assert_eq!(
        login_of("oops"),
        Err("failed to parse GitHub CLI JSON output: oops".to_string())
    );
}

#[test]
fn issues_are_enabled_unless_told_otherwise() {
    assert_eq!(issues_enabled(r#"{"has_issues": false}"#), Ok(false));
    assert_eq!(issues_enabled(r#"{"has_issues": true}"#), Ok(true));
    assert_eq!(issues_enabled(r#"{"has_issues": "no"}"#), Ok(true));
    assert_eq!(issues_enabled("{}"), Ok(true));
    assert!(!found_issues(Some(false)));
    assert!(found_issues(None));
    assert_eq!(
        issues_enabled(""),
        Err("failed to parse GitHub CLI JSON output: ".to_string())
    );
    assert_eq!(require_json("null"), Ok(()));
}
