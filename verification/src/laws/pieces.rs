//! What holds of smaller pieces: paths, waits, requests, and what a candidate is told by.
use crate::commands::review;
use crate::commands::review::FileEntry;
use crate::commands::submit;
use crate::config::ProgramSpec;
use crate::editable_surface;
use crate::editable_surface::EditableSurface;
use crate::github;
use crate::github::{GhCommand, GitHubClient, RateLimitKind};
use crate::paths;
use crate::sort;
use crate::sort::Ranked;
use crate::state::AttemptRecord;
use crate::text;
use crate::text_set;
use crate::time::{Delay, Timestamp};
use vstd::prelude::*;

verus! {

/// A path below another one is the two with one slash between them; a path from the root stands
/// alone.
pub proof fn how_paths_are_put_together(base: &str, rest: &str, r: String)
    requires
        call_ensures(paths::join, (base, rest), r),
        base@.len() > 0,
    ensures
        rest@.len() > 0 && rest@[0] == '/' ==> r@ == rest@,
        (rest@.len() == 0 || rest@[0] != '/') && base@.last() == '/' ==> r@ == base@ + rest@,
        (rest@.len() == 0 || rest@[0] != '/') && base@.last() != '/' ==> r@ == base@.push('/')
            + rest@,
{
    reveal_strlit("/");
    assert(base@ + "/"@ =~= base@.push('/'));
}

/// What the host asks for is waited for, and at most half as much more; without that the first wait
/// is about a minute and a half, and later ones are longer. No wait is over five minutes.
pub proof fn how_long_a_limit_is_waited_for(
    attempt: usize,
    stderr: &str,
    reset: Option<Timestamp>,
    now: Timestamp,
    asked: Option<Delay>,
    r: Option<Delay>,
)
    requires
        reset matches Some(t) ==> t.on_clock(),
        now.on_clock(),
        call_ensures(github::parse_retry_after, (stderr,), asked),
        call_ensures(
            github::resolve_rate_limit_delay,
            (RateLimitKind::Secondary, attempt, stderr, reset, now),
            r,
        ),
    ensures
        r is Some,
        ({
            let total = r->Some_0.secs * 1_000_000_000 + r->Some_0.nanos;
            &&& total <= 300_000_000_000
            &&& asked matches Some(d) ==> (d.secs <= 200 ==> d.secs * 1_000_000_000 <= total
                <= d.secs * 1_500_000_000)
            &&& asked matches Some(d) ==> (d.secs >= 300 ==> total == 300_000_000_000)
            &&& asked is None && attempt == 0 ==> 45_000_000_000 <= total <= 135_000_000_000
            &&& asked is None && attempt == 1 ==> 90_000_000_000 <= total <= 270_000_000_000
            &&& asked is None && attempt > 1 ==> 150_000_000_000 <= total
        }),
{
}

/// Where the budget has run out it is waited for until it is filled again and no shorter, up to
/// five minutes; where that time is not known, nothing is said.
pub proof fn how_long_a_budget_is_waited_for(
    attempt: usize,
    stderr: &str,
    reset: Timestamp,
    now: Timestamp,
    r: Option<Delay>,
    s: Option<Delay>,
    w: Delay,
)
    requires
        reset.on_clock(),
        now.on_clock(),
        call_ensures(
            github::resolve_rate_limit_delay,
            (RateLimitKind::Primary, attempt, stderr, Some(reset), now),
            r,
        ),
        call_ensures(
            github::resolve_rate_limit_delay,
            (RateLimitKind::Primary, attempt, stderr, None, now),
            s,
        ),
        call_ensures(github::wait_for_reset, (reset, now), w),
    ensures
        s is None,
        r is Some,
        ({
            let gap = (reset.secs - now.secs) * 1_000_000_000 + reset.nanos - now.nanos;
            let total = r->Some_0.secs * 1_000_000_000 + r->Some_0.nanos;
            let wait = w.secs * 1_000_000_000 + w.nanos;
            &&& gap > 0 ==> wait == gap + 1_000_000_000
            &&& gap <= 0 ==> wait == 6_000_000_000
            &&& total <= 300_000_000_000
            &&& wait <= 300_000_000_000 ==> wait <= total
            &&& wait > 300_000_000_000 ==> total == 300_000_000_000
        }),
{
}

/// A spread wait is neither less than half of what it comes from nor more than half as much again;
/// one that the host asked for is no less than that.
pub proof fn how_far_waits_are_spread(base: Delay, r: Delay, s: Delay)
    requires
        base.nanos < 1_000_000_000,
        base.secs <= 1_000_000_000,
        call_ensures(github::jittered_delay, (base,), r),
        call_ensures(github::server_jittered_delay, (base,), s),
    ensures
        ({
            let b = base.secs * 1_000_000_000 + base.nanos;
            let x = r.secs * 1_000_000_000 + r.nanos;
            let y = s.secs * 1_000_000_000 + s.nanos;
            &&& b <= 2 * x <= 3 * b
            &&& b <= y
            &&& 2 * y <= 3 * b
        }),
{
}

/// A new candidate's number is the last part of the address that the host gives for it.
pub proof fn the_number_ends_the_address(
    start: Seq<char>,
    n: u64,
    written: String,
    url: &str,
    r: Option<u64>,
)
    requires
        call_ensures(text::number, (n,), written),
        url@ == start + "/"@ + written@,
        start.len() > 0 && !text::is_space(start[0]),
        call_ensures(GitHubClient::created_number, (url,), r),
    ensures
        r == Some(n),
{
    reveal_strlit("/");
    text::lemma_decimal(n as nat);
    let w = written@;
    assert(url@[0] == start[0]);
    assert(url@.last() == w.last());
    assert(text::is_digit(w[w.len() - 1]));
    text::lemma_trimmed_already(url@);
    assert forall|i: int| 0 <= i < w.len() implies #[trigger] w[i] != '/' by {
        assert(text::is_digit(w[i]));
    }
    lemma_after_slash(start, w);
}

proof fn lemma_after_slash(start: Seq<char>, last: Seq<char>)
    requires
        forall|i: int| 0 <= i < last.len() ==> #[trigger] last[i] != '/',
    ensures
        text::after_last(start + "/"@ + last, '/') == last,
    decreases last.len(),
{
    reveal_strlit("/");
    let s = start + "/"@ + last;
    if last.len() == 0 {
        assert(s.last() == '/');
        assert(last =~= Seq::empty());
    } else {
        let rest = last.drop_last();
        assert forall|i: int| 0 <= i < rest.len() implies #[trigger] rest[i] != '/' by {
            assert(rest[i] == last[i]);
        }
        lemma_after_slash(start, rest);
        assert(s.drop_last() =~= start + "/"@ + rest);
        assert(s.last() == last[last.len() - 1]);
        assert(rest.push(last.last()) =~= last);
    }
}

/// A candidate is told by its thesis, and by the metric, the baseline and the summary of its own
/// attempt.
pub proof fn what_a_candidate_is_told_by(
    number: u64,
    title: &str,
    a: AttemptRecord,
    head: String,
    body: String,
)
    requires
        call_ensures(submit::candidate_title, (number, title), head),
        call_ensures(submit::candidate_body, (number, &a), body),
    ensures
        head@ == "Thesis #"@ + text::decimal(number as nat) + ": "@ + title@,
        exists|rest: Seq<char>|
            body@ == "References #"@ + text::decimal(number as nat)
                + "\n\nSelf-reported metric: "@ + a.metric.text@ + "\nBaseline: "@ + rest,
        exists|start: Seq<char>| body@ == start + "\nSummary: "@ + a.summary@,
        a.baseline_metric matches Some(b) ==> exists|start: Seq<char>|
            body@ == start + "\nBaseline: "@ + b.text@ + "\nSummary: "@ + a.summary@,
{
    let first = "References #"@ + text::decimal(number as nat) + "\n\nSelf-reported metric: "@
        + a.metric.text@;
    let base = match a.baseline_metric {
        Some(b) => b.text@,
        None => "N/A"@,
    };
    let rest = base + "\nSummary: "@ + a.summary@;
    assert(body@ =~= "References #"@ + text::decimal(number as nat)
        + "\n\nSelf-reported metric: "@ + a.metric.text@ + "\nBaseline: "@ + rest);
    let start = first + "\nBaseline: "@ + base;
    assert(body@ =~= start + "\nSummary: "@ + a.summary@);
    if a.baseline_metric is Some {
        assert(body@ =~= first + "\nBaseline: "@ + base + "\nSummary: "@ + a.summary@);
    }
}

/// The files have an order among them: no two stand at the same place.
pub open spec fn are_apart(files: Seq<FileEntry>) -> bool {
    forall|i: int, j: int|
        0 <= i < j < files.len() ==> (#[trigger] files[i]).after(#[trigger] files[j])
            || files[j].after(files[i])
}

/// The mark of an environment does not depend on the order in which its files are found.
pub proof fn an_environment_has_one_mark(a: Vec<FileEntry>, b: Vec<FileEntry>, r: String, s: String)
    requires
        a@.to_multiset() == b@.to_multiset(),
        are_apart(sort::sorted(a@)),
        call_ensures(review::compute_env_sha, (a,), r),
        call_ensures(review::compute_env_sha, (b,), s),
    ensures
        r@ == s@,
        r@.len() == 64,
{
    sort::sorted_is_ordered_and_complete(a@);
    sort::sorted_is_ordered_and_complete(b@);
    sort::order_is_unique(sort::sorted(a@), sort::sorted(b@));
}

proof fn lemma_with_all(list: Seq<Seq<char>>, more: Seq<Seq<char>>, x: Seq<char>)
    ensures
        editable_surface::with_all(list, more).contains(x) <==> list.contains(x) || more.contains(
            x,
        ),
    decreases more.len(),
{
    if more.len() > 0 {
        let rest = more.drop_last();
        let a = editable_surface::with_all(list, rest);
        let all = editable_surface::with_all(list, more);
        lemma_with_all(list, rest, x);
        lemma_with_all(list, rest, more.last());
        assert(more[more.len() - 1] == more.last());
        if more.contains(x) {
            let k = choose|k: int| 0 <= k < more.len() && more[k] == x;
            if k < rest.len() {
                assert(rest[k] == x);
            }
        }
        if rest.contains(x) {
            let k = choose|k: int| 0 <= k < rest.len() && rest[k] == x;
            assert(more[k] == x);
        }
        if !a.contains(more.last()) {
            if a.contains(x) {
                let k = choose|k: int| 0 <= k < a.len() && a[k] == x;
                assert(all[k] == x);
            }
            assert(all[all.len() - 1] == more.last());
            if all.contains(x) {
                let k = choose|k: int| 0 <= k < all.len() && all[k] == x;
                if k < a.len() {
                    assert(a[k] == x);
                }
            }
        }
    }
}

/// What a program file closes stays closed, and so does what the evaluation rests on; nothing else
/// does, and nothing else is open than what the file opens.
pub proof fn what_a_program_closes(program: ProgramSpec, x: Seq<char>, r: EditableSurface)
    requires
        call_ensures(EditableSurface::from_program, (&program,), r),
    ensures
        text::texts(r.program.can_modify@) == text::texts(program.can_modify@),
        text::texts(r.program.cannot_modify@).contains(x) <==> text::texts(
            program.cannot_modify@,
        ).contains(x) || x == ".polyresearch/"@ || x == ".polyresearch-node.toml"@ || x
            == "PROGRAM.md"@ || x == "PREPARE.md"@,
{
    let p = editable_surface::always_protected();
    lemma_with_all(text::texts(program.cannot_modify@), p, x);
    assert(p[0] == ".polyresearch/"@);
    assert(p[1] == ".polyresearch-node.toml"@);
    assert(p[2] == "PROGRAM.md"@);
    assert(p[3] == "PREPARE.md"@);
    if p.contains(x) {
        let k = choose|k: int| 0 <= k < p.len() && p[k] == x;
        assert(k == 0 || k == 1 || k == 2 || k == 3);
    }
}

/// A text put into an ordered set is in it, with all that was; the set stays in order.
pub proof fn what_is_put_into_a_set_is_in_it(v: &mut Vec<String>, x: String, y: Seq<char>)
    requires
        call_ensures(text_set::insert, (v, x), ()),
        text_set::ascending(text::texts(old(v)@)),
    ensures
        text_set::ascending(text::texts(final(v)@)),
        text::texts(final(v)@).contains(y) <==> text::texts(old(v)@).contains(y) || y == x@,
{
    text_set::lemma_with(text::texts(old(v)@), x@);
}

/// Questions are asked of the project's own repository: for all theses, and for all candidates.
pub proof fn what_is_asked_of_the_host(
    c: GitHubClient,
    issues: GhCommand,
    candidates: GhCommand,
    s: github::IssueListState,
    p: github::PullRequestListState,
)
    requires
        call_ensures(GitHubClient::list_thesis_issues, (&c, s), issues),
        call_ensures(GitHubClient::list_pull_requests, (&c, p), candidates),
    ensures
        issues.idempotent,
        candidates.idempotent,
        ({
            let a = text::texts(issues.args@);
            let b = text::texts(candidates.args@);
            let slug = c.repo.owner@ + "/"@ + c.repo.name@;
            &&& a[0] == "issue"@ && a[1] == "list"@ && a[3] == slug && a[5] == "thesis"@ && a[7]
                == "all"@
            &&& b[0] == "pr"@ && b[1] == "list"@ && b[3] == slug && b[5] == "all"@
        }),
{
}

} // verus!
