//! What holds of requests to the host.
use crate::github;
use crate::github::{
    ApiField, GhCommand, GitHubCliError, GitHubClient, RateLimitKind, RepoRef, RetryReason,
    RetryStep,
};
use crate::text;
use crate::time::{Delay, Timestamp};
use vstd::prelude::*;

verus! {

/// Requests that only read may be sent again; those that change something may not.
pub proof fn which_requests_may_be_repeated(
    c: GitHubClient,
    n: u64,
    a: &str,
    b: &str,
    title: &str,
    base: &str,
    reads: Seq<GhCommand>,
    writes: Seq<GhCommand>,
)
    requires
        reads.len() == 5,
        writes.len() == 8,
        call_ensures(GitHubClient::list_issue_comments, (&c, n), reads[0]),
        call_ensures(GitHubClient::list_pull_request_comments, (&c, n), reads[1]),
        call_ensures(GitHubClient::list_pull_request_files, (&c, n), reads[2]),
        call_ensures(GitHubClient::get_pull_request, (&c, n), reads[3]),
        call_ensures(GitHubClient::current_login, (&c,), reads[4]),
        call_ensures(GitHubClient::post_issue_comment, (&c, n, a), writes[0]),
        call_ensures(GitHubClient::close_issue, (&c, n), writes[1]),
        call_ensures(GitHubClient::reopen_issue, (&c, n), writes[2]),
        call_ensures(GitHubClient::close_pull_request, (&c, n), writes[3]),
        call_ensures(GitHubClient::merge_pull_request, (&c, n), writes[4]),
        call_ensures(GitHubClient::delete_ref, (&c, a), writes[5]),
        call_ensures(GitHubClient::create_pull_request, (&c, a, title, b, base), writes[6]),
        call_ensures(GitHubClient::enable_issues, (&c,), writes[7]),
    ensures
        forall|i: int| 0 <= i < 5 ==> (#[trigger] reads[i]).idempotent,
        forall|i: int| 0 <= i < 8 ==> !(#[trigger] writes[i]).idempotent,
{
    assert forall|i: int| 0 <= i < 5 implies (#[trigger] reads[i]).idempotent by {
        if i == 0 {
        } else if i == 1 {
        } else if i == 2 {
        } else if i == 3 {
        } else {
            assert(i == 4);
        }
    }
    assert forall|i: int| 0 <= i < 8 implies !(#[trigger] writes[i]).idempotent by {
        if i == 0 {
        } else if i == 1 {
        } else if i == 2 {
        } else if i == 3 {
        } else if i == 4 {
        } else if i == 5 {
        } else if i == 6 {
        } else {
            assert(i == 7);
        }
    }
}

/// What the request sends in one field.
pub open spec fn sends(r: GhCommand, pair: Seq<char>) -> bool {
    r.args@.len() == 6 && r.args@[4]@ == "-f"@ && r.args@[5]@ == pair
}

/// The request is of this kind and goes to this place.
pub open spec fn goes_to(r: GhCommand, method: Seq<char>, place: Seq<char>) -> bool {
    r.args@.len() >= 4 && r.args@[0]@ == "api"@ && r.args@[1]@ == "--method"@ && r.args@[2]@
        == method && r.args@[3]@ == place
}

proof fn lemma_one_field(r: GhCommand, method: Seq<char>, place: Seq<char>, k: &str, v: &str)
    requires
        text::texts(r.args@) == github::request_arguments(
            method,
            place,
            seq![ApiField::Raw(k, v)],
        ),
    ensures
        goes_to(r, method, place),
        sends(r, k@ + "="@ + v@),
{
    let fields = seq![ApiField::Raw(k, v)];
    assert(fields.drop_last() =~= Seq::empty());
    assert(github::field_arguments(fields.drop_last()).len() == 0);
    assert(github::field_arguments(fields) =~= fields.last().arguments());
    let t = text::texts(r.args@);
    assert(t.len() == 6);
    assert(t[0] == r.args@[0]@ && t[1] == r.args@[1]@ && t[2] == r.args@[2]@ && t[3]
        == r.args@[3]@ && t[4] == r.args@[4]@ && t[5] == r.args@[5]@);
}

/// Closing an issue and opening it again go to the same place and differ in the state that they ask
/// for; closing a candidate goes to the candidate, and a merge to where it is merged.
pub proof fn what_changes_an_issue_or_a_candidate(
    c: GitHubClient,
    n: u64,
    body: &str,
    close: GhCommand,
    open: GhCommand,
    close_pr: GhCommand,
    merge: GhCommand,
    post: GhCommand,
)
    requires
        call_ensures(GitHubClient::close_issue, (&c, n), close),
        call_ensures(GitHubClient::reopen_issue, (&c, n), open),
        call_ensures(GitHubClient::close_pull_request, (&c, n), close_pr),
        call_ensures(GitHubClient::merge_pull_request, (&c, n), merge),
        call_ensures(GitHubClient::post_issue_comment, (&c, n, body), post),
    ensures
        ({
            let root = "repos/"@ + c.repo.owner@ + "/"@ + c.repo.name@;
            let d = text::decimal(n as nat);
            &&& goes_to(close, "PATCH"@, root + "/issues/"@ + d) && sends(
                close,
                "state"@ + "="@ + "closed"@,
            )
            &&& goes_to(open, "PATCH"@, root + "/issues/"@ + d) && sends(
                open,
                "state"@ + "="@ + "open"@,
            )
            &&& goes_to(close_pr, "PATCH"@, root + "/pulls/"@ + d) && sends(
                close_pr,
                "state"@ + "="@ + "closed"@,
            )
            &&& goes_to(merge, "PUT"@, root + "/pulls/"@ + d + "/merge"@)
            &&& goes_to(post, "POST"@, root + "/issues/"@ + d + "/comments"@) && sends(
                post,
                "body"@ + "="@ + body@,
            )
        }),
{
    reveal_strlit("");
    let root = c.root();
    let d = text::decimal(n as nat);
    assert(root + "/issues/"@ + d + ""@ =~= root + "/issues/"@ + d);
    assert(root + "/pulls/"@ + d + ""@ =~= root + "/pulls/"@ + d);
    lemma_one_field(close, "PATCH"@, root + "/issues/"@ + d, "state", "closed");
    lemma_one_field(open, "PATCH"@, root + "/issues/"@ + d, "state", "open");
    lemma_one_field(close_pr, "PATCH"@, root + "/pulls/"@ + d, "state", "closed");
    lemma_one_field(merge, "PUT"@, root + "/pulls/"@ + d + "/merge"@, "merge_method", "merge");
    lemma_one_field(post, "POST"@, root + "/issues/"@ + d + "/comments"@, "body", body);
}

/// A candidate is made of its own branch, on top of the base, with its title and its body.
pub proof fn what_a_candidate_is_made_of(
    c: GitHubClient,
    branch: &str,
    title: &str,
    body: &str,
    base: &str,
    r: GhCommand,
)
    requires
        call_ensures(GitHubClient::create_pull_request, (&c, branch, title, body, base), r),
    ensures
        r.args@.len() == 12,
        r.args@[4]@ == "--base"@ && r.args@[5]@ == base@,
        r.args@[6]@ == "--head"@ && r.args@[7]@ == branch@,
        r.args@[8]@ == "--title"@ && r.args@[9]@ == title@,
        r.args@[10]@ == "--body"@ && r.args@[11]@ == body@,
{
    let t = text::texts(r.args@);
    assert(t.len() == r.args@.len());
    assert forall|i: int| 0 <= i < r.args@.len() implies t[i] == (#[trigger] r.args@[i])@ by {}
}

/// The message tells of a fault that passes.
pub open spec fn tells_of_a_fault(low: Seq<char>) -> bool {
    text::holds(low, "http 502"@) || text::holds(low, "http 503"@) || text::holds(
        low,
        "bad gateway"@,
    ) || text::holds(low, "service unavailable"@)
}

/// The message tells of a request that came too soon after others.
pub open spec fn tells_of_haste(low: Seq<char>) -> bool {
    text::holds(low, "secondary rate limit"@) || text::holds(low, "abuse detection"@)
        || text::holds(low, "please wait a few minutes before you try again"@) || text::holds(
        low,
        "retry-after"@,
    ) || text::holds(low, "http 429"@)
}

/// Only a request that may be repeated is sent again for a fault that passes. The budget has run out
/// only where the message says so and does not tell of haste; any other limit is one of haste. A
/// request is given up exactly where its message tells of none of these.
pub proof fn why_a_request_is_sent_again(
    message: &str,
    may_repeat: bool,
    r: Option<RetryReason>,
)
    requires
        call_ensures(github::classify_retry, (message, may_repeat), r),
    ensures
        ({
            let low = text::lower(message@);
            let fault = may_repeat && tells_of_a_fault(low);
            let spent = text::holds(low, "api rate limit exceeded"@);
            let limited = text::holds(low, "rate limit exceeded"@);
            &&& r == Some(RetryReason::Transient) <==> fault
            &&& r == Some(RetryReason::RateLimited(RateLimitKind::Primary)) <==> !fault
                && !tells_of_haste(low) && spent
            &&& r == Some(RetryReason::RateLimited(RateLimitKind::Secondary)) <==> !fault && (
            tells_of_haste(low) || (!spent && limited))
            &&& r is None <==> !fault && !tells_of_haste(low) && !spent && !limited
        }),
{
}

/// A failed request is sent again exactly where there is a reason for it and it was sent again fewer
/// than three times; for a reason of limits it then ends with the limit, else with the message.
pub proof fn how_often_a_request_is_sent(
    attempt: usize,
    stderr: String,
    message: &str,
    may_repeat: bool,
    reset: Option<Timestamp>,
    now: Timestamp,
    why: Option<RetryReason>,
    r: RetryStep,
)
    requires
        reset matches Some(t) ==> t.on_clock(),
        now.on_clock(),
        call_ensures(github::after_failure, (attempt, stderr, may_repeat, reset, now), r),
        message@ == stderr@,
        call_ensures(github::classify_retry, (message, may_repeat), why),
    ensures
        r is Again <==> why is Some && attempt < 3,
        r is Limited <==> why is Some && attempt >= 3 && why->Some_0 is RateLimited,
        r is GiveUp <==> why is None || (attempt >= 3 && why->Some_0 is Transient),
        r matches RetryStep::Again { reason, delay } ==> Some(reason) == why,
        r matches RetryStep::Limited(e) ==> (e matches GitHubCliError::RateLimited {
            kind,
            attempts,
            stderr: told,
            ..
        } && why == Some(RetryReason::RateLimited(kind)) && attempts == attempt && told == stderr),
{
}

/// How long is waited before a request is sent again. After a fault that passes it is between half and
/// one and a half of five, ten and twenty seconds, by how often it was sent. After a limit it is at
/// most five minutes, or one and a half of them where nothing is known of the budget; and where the
/// budget is filled again within that time, it is not before.
pub proof fn how_long_is_waited(
    attempt: usize,
    stderr: String,
    may_repeat: bool,
    reset: Option<Timestamp>,
    now: Timestamp,
    r: RetryStep,
)
    requires
        reset matches Some(t) ==> t.on_clock(),
        now.on_clock(),
        call_ensures(github::after_failure, (attempt, stderr, may_repeat, reset, now), r),
        r is Again,
    ensures
        ({
            let total = r->delay.secs * 1_000_000_000 + r->delay.nanos;
            let step: int = if attempt == 0 {
                5
            } else if attempt == 1 {
                10
            } else {
                20
            };
            &&& r->reason is Transient ==> step * 500_000_000 <= total <= step * 1_500_000_000
            &&& r->reason is RateLimited ==> total <= 450_000_000_000
            &&& r->reason is RateLimited && (r->reason == RetryReason::RateLimited(
                RateLimitKind::Secondary,
            ) || reset is Some) ==> total <= 300_000_000_000
            &&& r->reason == RetryReason::RateLimited(RateLimitKind::Primary) && (reset matches Some(
                t,
            )) ==> {
                let t = reset->Some_0;
                let gap = (t.secs - now.secs) * 1_000_000_000 + t.nanos - now.nanos;
                total >= gap || total == 300_000_000_000
            }
        }),
{
}

/// No wait is longer than five minutes once it is capped, and a shorter one is left as it is.
pub proof fn waits_are_capped(d: Delay, r: Delay)
    requires
        d.nanos < 1_000_000_000,
        call_ensures(github::capped_delay, (d,), r),
    ensures
        r.secs * 1_000_000_000 + r.nanos <= 300_000_000_000,
        d.secs < 300 ==> r == d,
        d.secs >= 300 ==> r.secs == 300 && r.nanos == 0,
{
}

/// A message that asks to wait some seconds is heard: the first number behind the word is the wait, and
/// nothing is asked for where the word does not stand there.
pub proof fn what_wait_is_asked_for(message: &str, r: Option<Delay>)
    requires
        call_ensures(github::parse_retry_after, (message,), r),
    ensures
        r is Some ==> text::holds(text::lower(message@), "retry-after"@),
        r matches Some(d) ==> d.nanos == 0,
{
    text::lemma_find_from(text::lower(message@), "retry-after"@, 0);
}

/// A repository's short form is read back, where neither part is empty or holds a slash.
pub proof fn a_repository_is_read_back(
    repo: RepoRef,
    slug: String,
    value: &str,
    r: Result<RepoRef, String>,
)
    requires
        call_ensures(RepoRef::slug, (&repo,), slug),
        value@ == slug@,
        call_ensures(RepoRef::parse, (value,), r),
        repo.owner@.len() > 0,
        repo.name@.len() > 0,
        forall|i: int| 0 <= i < repo.owner@.len() ==> #[trigger] repo.owner@[i] != '/',
        forall|i: int| 0 <= i < repo.name@.len() ==> #[trigger] repo.name@[i] != '/',
    ensures
        r matches Ok(back) && back.owner@ == repo.owner@ && back.name@ == repo.name@,
{
    reveal_strlit("/");
    let v = value@;
    let n = repo.owner@.len() as int;
    assert(v.subrange(n, n + 1) =~= "/"@);
    assert forall|j: int| 0 <= j < n implies !text::occurs_at(v, "/"@, j) by {
        assert(v.subrange(j, j + 1)[0] == repo.owner@[j]);
    }
    text::lemma_found_at(v, "/"@, 0, n);
    assert(v.take(n) =~= repo.owner@);
    assert(v.skip(n + 1) =~= repo.name@);
    assert forall|j: int| 0 <= j implies !text::occurs_at(repo.name@, "/"@, j) by {
        if text::occurs_at(repo.name@, "/"@, j) {
            assert(repo.name@.subrange(j, j + 1)[0] == repo.name@[j]);
        }
    }
    text::lemma_not_found(repo.name@, "/"@, 0);
}

/// A repository that was named is the one that was named, whatever the checkout says.
pub proof fn what_was_named_comes_first(
    value: &str,
    remote: Result<String, String>,
    r: Result<RepoRef, String>,
    s: Result<RepoRef, String>,
)
    requires
        call_ensures(RepoRef::discover, (Some(value), remote), r),
        call_ensures(RepoRef::parse, (value,), s),
    ensures
        r is Ok <==> s is Ok,
        r is Ok ==> r->Ok_0.owner@ == s->Ok_0.owner@ && r->Ok_0.name@ == s->Ok_0.name@,
{
}

/// Issues are there unless the host says that they are not.
pub proof fn issues_are_there_unless_denied(told: Option<bool>, r: bool)
    requires
        call_ensures(github::found_issues, (told,), r),
    ensures
        !r <==> told == Some(false),
{
}

} // verus!
