//! Tells how fast a node may go on.
use crate::commands;
use crate::commands::duties;
use crate::commands::ProcessExit;
use crate::github::RateLimitStatus;
use crate::state::{
    AttemptRecord, ClaimRecord, PullRequestState, ReleaseRecord, RepositoryState,
    ReviewClaimRecord, ReviewRecord, ThesisState,
};
use crate::text;
use crate::time;
use crate::time::Timestamp;
use vstd::prelude::*;
use vstd::string::*;

verus! {

/// The exit code where the host's limit is reached.
pub const RATE_LIMIT_EXIT_CODE: i32 = 75;

/// How fast a node may go on.
#[derive(Debug)]
pub struct PaceOutput {
    pub repo: String,
    pub node_id: String,
    pub resource_policy: String,
    pub is_default_policy: bool,
    pub api_budget: u64,
    pub rate_limit: PaceRateLimit,
    pub attempts_last_hour: usize,
    pub attempts_last_4_hours: usize,
    pub idle_minutes: Option<i64>,
    pub claimable_theses: usize,
    pub active_claims: usize,
}

/// What is left of the host's limit.
#[derive(Clone, Copy, Debug)]
pub struct PaceRateLimit {
    pub configured_budget: u64,
    pub limit: u64,
    pub remaining: u64,
    pub used: u64,
    pub resets_at: Option<Timestamp>,
    pub issue_count: usize,
    pub pull_request_count: usize,
    pub derive_cost: u64,
    pub commands_left: u64,
    pub is_low: bool,
}

/// The later of two points, either of which may be missing.
pub open spec fn later(a: Option<Timestamp>, b: Option<Timestamp>) -> Option<Timestamp> {
    match (a, b) {
        (Some(x), Some(y)) => Some(x.latest(y)),
        (Some(x), None) => Some(x),
        (None, y) => y,
    }
}

fn later_of(a: Option<Timestamp>, b: Option<Timestamp>) -> (r: Option<Timestamp>)
    ensures
        r == later(a, b),
{
    match (a, b) {
        (Some(x), Some(y)) => if x.before(&y) {
            Some(y)
        } else {
            Some(x)
        },
        (Some(x), None) => Some(x),
        (None, y) => y,
    }
}

/// When the node's last claim was made.
pub open spec fn last_of_claims(list: Seq<ClaimRecord>, node: Seq<char>) -> Option<Timestamp>
    decreases list.len(),
{
    if list.len() == 0 {
        None
    } else {
        let rest = last_of_claims(list.drop_last(), node);
        if list.last().node@ == node {
            later(rest, Some(list.last().created_at))
        } else {
            rest
        }
    }
}

fn find_last_of_claims(list: &Vec<ClaimRecord>, node: &str) -> (r: Option<Timestamp>)
    ensures
        r == last_of_claims(list@, node@),
{
    let mut r: Option<Timestamp> = None;
    let mut i: usize = 0;
    assert(list@.take(0).len() == 0);
    while i < list.len()
        invariant
            i <= list.len(),
            r == last_of_claims(list@.take(i as int), node@),
        decreases list.len() - i,
    {
        proof {
            assert(list@.take(i + 1).drop_last() =~= list@.take(i as int));
            assert(list@.take(i + 1).last() == list@[i as int]);
        }
        if text::same(list[i].node.as_str(), node) {
            r = later_of(r, Some(list[i].created_at));
        }
        i = i + 1;
    }
    assert(list@.take(i as int) =~= list@);
    r
}

/// When the node's last release was made.
pub open spec fn last_of_releases(list: Seq<ReleaseRecord>, node: Seq<char>) -> Option<Timestamp>
    decreases list.len(),
{
    if list.len() == 0 {
        None
    } else {
        let rest = last_of_releases(list.drop_last(), node);
        if list.last().node@ == node {
            later(rest, Some(list.last().created_at))
        } else {
            rest
        }
    }
}

fn find_last_of_releases(list: &Vec<ReleaseRecord>, node: &str) -> (r: Option<Timestamp>)
    ensures
        r == last_of_releases(list@, node@),
{
    let mut r: Option<Timestamp> = None;
    let mut i: usize = 0;
    assert(list@.take(0).len() == 0);
    while i < list.len()
        invariant
            i <= list.len(),
            r == last_of_releases(list@.take(i as int), node@),
        decreases list.len() - i,
    {
        proof {
            assert(list@.take(i + 1).drop_last() =~= list@.take(i as int));
            assert(list@.take(i + 1).last() == list@[i as int]);
        }
        if text::same(list[i].node.as_str(), node) {
            r = later_of(r, Some(list[i].created_at));
        }
        i = i + 1;
    }
    assert(list@.take(i as int) =~= list@);
    r
}

/// When the node's last attempt was made.
pub open spec fn last_of_attempts(list: Seq<AttemptRecord>, node: Seq<char>) -> Option<Timestamp>
    decreases list.len(),
{
    if list.len() == 0 {
        None
    } else {
        let rest = last_of_attempts(list.drop_last(), node);
        if list.last().node@ == node {
            later(rest, Some(list.last().created_at))
        } else {
            rest
        }
    }
}

fn find_last_of_attempts(list: &Vec<AttemptRecord>, node: &str) -> (r: Option<Timestamp>)
    ensures
        r == last_of_attempts(list@, node@),
{
    let mut r: Option<Timestamp> = None;
    let mut i: usize = 0;
    assert(list@.take(0).len() == 0);
    while i < list.len()
        invariant
            i <= list.len(),
            r == last_of_attempts(list@.take(i as int), node@),
        decreases list.len() - i,
    {
        proof {
            assert(list@.take(i + 1).drop_last() =~= list@.take(i as int));
            assert(list@.take(i + 1).last() == list@[i as int]);
        }
        if text::same(list[i].node.as_str(), node) {
            r = later_of(r, Some(list[i].created_at));
        }
        i = i + 1;
    }
    assert(list@.take(i as int) =~= list@);
    r
}

/// When the node's last review claim was made.
pub open spec fn last_of_review_claims(list: Seq<ReviewClaimRecord>, node: Seq<char>) -> Option<Timestamp>
    decreases list.len(),
{
    if list.len() == 0 {
        None
    } else {
        let rest = last_of_review_claims(list.drop_last(), node);
        if list.last().node@ == node {
            later(rest, Some(list.last().created_at))
        } else {
            rest
        }
    }
}

fn find_last_of_review_claims(list: &Vec<ReviewClaimRecord>, node: &str) -> (r: Option<Timestamp>)
    ensures
        r == last_of_review_claims(list@, node@),
{
    let mut r: Option<Timestamp> = None;
    let mut i: usize = 0;
    assert(list@.take(0).len() == 0);
    while i < list.len()
        invariant
            i <= list.len(),
            r == last_of_review_claims(list@.take(i as int), node@),
        decreases list.len() - i,
    {
        proof {
            assert(list@.take(i + 1).drop_last() =~= list@.take(i as int));
            assert(list@.take(i + 1).last() == list@[i as int]);
        }
        if text::same(list[i].node.as_str(), node) {
            r = later_of(r, Some(list[i].created_at));
        }
        i = i + 1;
    }
    assert(list@.take(i as int) =~= list@);
    r
}

/// When the node's last review was made.
pub open spec fn last_of_reviews(list: Seq<ReviewRecord>, node: Seq<char>) -> Option<Timestamp>
    decreases list.len(),
{
    if list.len() == 0 {
        None
    } else {
        let rest = last_of_reviews(list.drop_last(), node);
        if list.last().node@ == node {
            later(rest, Some(list.last().created_at))
        } else {
            rest
        }
    }
}

fn find_last_of_reviews(list: &Vec<ReviewRecord>, node: &str) -> (r: Option<Timestamp>)
    ensures
        r == last_of_reviews(list@, node@),
{
    let mut r: Option<Timestamp> = None;
    let mut i: usize = 0;
    assert(list@.take(0).len() == 0);
    while i < list.len()
        invariant
            i <= list.len(),
            r == last_of_reviews(list@.take(i as int), node@),
        decreases list.len() - i,
    {
        proof {
            assert(list@.take(i + 1).drop_last() =~= list@.take(i as int));
            assert(list@.take(i + 1).last() == list@[i as int]);
        }
        if text::same(list[i].node.as_str(), node) {
            r = later_of(r, Some(list[i].created_at));
        }
        i = i + 1;
    }
    assert(list@.take(i as int) =~= list@);
    r
}

/// When the node last did something for candidates.
pub open spec fn last_on_candidates(prs: Seq<PullRequestState>, node: Seq<char>) -> Option<Timestamp>
    decreases prs.len(),
{
    if prs.len() == 0 {
        None
    } else {
        later(
            last_on_candidates(prs.drop_last(), node),
            later(
                last_of_review_claims(prs.last().review_claims@, node),
                last_of_reviews(prs.last().reviews@, node),
            ),
        )
    }
}

/// When the node last did something for a thesis.
pub open spec fn last_on_thesis(t: ThesisState, node: Seq<char>) -> Option<Timestamp> {
    later(
        later(
            last_of_claims(t.active_claims@, node),
            later(last_of_releases(t.releases@, node), last_of_attempts(t.attempts@, node)),
        ),
        last_on_candidates(t.pull_requests@, node),
    )
}

/// When the node last did something.
pub open spec fn last_on(theses: Seq<ThesisState>, node: Seq<char>) -> Option<Timestamp>
    decreases theses.len(),
{
    if theses.len() == 0 {
        None
    } else {
        later(last_on(theses.drop_last(), node), last_on_thesis(theses.last(), node))
    }
}

fn find_last_on_candidates(prs: &Vec<PullRequestState>, node: &str) -> (r: Option<Timestamp>)
    ensures
        r == last_on_candidates(prs@, node@),
{
    let mut r: Option<Timestamp> = None;
    let mut i: usize = 0;
    assert(prs@.take(0).len() == 0);
    while i < prs.len()
        invariant
            i <= prs.len(),
            r == last_on_candidates(prs@.take(i as int), node@),
        decreases prs.len() - i,
    {
        proof {
            assert(prs@.take(i + 1).drop_last() =~= prs@.take(i as int));
            assert(prs@.take(i + 1).last() == prs@[i as int]);
        }
        let claims = find_last_of_review_claims(&prs[i].review_claims, node);
        let reviews = find_last_of_reviews(&prs[i].reviews, node);
        r = later_of(r, later_of(claims, reviews));
        i = i + 1;
    }
    assert(prs@.take(i as int) =~= prs@);
    r
}

/// When a node last claimed, released, attempted or reviewed something.
pub fn last_activity(repo_state: &RepositoryState, node_id: &str) -> (r: Option<Timestamp>)
    ensures
        r == last_on(repo_state.theses@, node_id@),
{
    let theses = &repo_state.theses;
    let mut r: Option<Timestamp> = None;
    let mut i: usize = 0;
    assert(theses@.take(0).len() == 0);
    while i < theses.len()
        invariant
            i <= theses.len(),
            r == last_on(theses@.take(i as int), node_id@),
        decreases theses.len() - i,
    {
        proof {
            assert(theses@.take(i + 1).drop_last() =~= theses@.take(i as int));
            assert(theses@.take(i + 1).last() == theses@[i as int]);
        }
        let t = &theses[i];
        let claims = find_last_of_claims(&t.active_claims, node_id);
        let releases = find_last_of_releases(&t.releases, node_id);
        let attempts = find_last_of_attempts(&t.attempts, node_id);
        let candidates = find_last_on_candidates(&t.pull_requests, node_id);
        r = later_of(
            r,
            later_of(later_of(claims, later_of(releases, attempts)), candidates),
        );
        i = i + 1;
    }
    assert(theses@.take(i as int) =~= theses@);
    r
}

/// How many of the first attempts the node has made since a time.
pub open spec fn made_since(a: Seq<AttemptRecord>, node: Seq<char>, since: Timestamp) -> nat
    decreases a.len(),
{
    if a.len() == 0 {
        0
    } else {
        made_since(a.drop_last(), node, since) + (if a.last().node@ == node
            && !a.last().created_at.earlier(since) {
            1nat
        } else {
            0nat
        })
    }
}

/// How many attempts at theses the node has made since a time.
pub open spec fn attempts_since(theses: Seq<ThesisState>, node: Seq<char>, since: Timestamp) -> nat
    decreases theses.len(),
{
    if theses.len() == 0 {
        0
    } else {
        attempts_since(theses.drop_last(), node, since) + made_since(
            theses.last().attempts@,
            node,
            since,
        )
    }
}

/// A number that can be counted: at most the largest.
pub open spec fn countable(n: nat) -> int {
    if n <= usize::MAX {
        n as int
    } else {
        usize::MAX as int
    }
}

/// How many attempts at theses a node has made since a time; no more than can be counted.
pub fn count_attempts_since(repo_state: &RepositoryState, node: &str, since: Timestamp) -> (r: usize)
    ensures
        r == countable(attempts_since(repo_state.theses@, node@, since)),
{
    let theses = &repo_state.theses;
    let mut total: usize = 0;
    let mut i: usize = 0;
    assert(theses@.take(0).len() == 0);
    while i < theses.len()
        invariant
            i <= theses.len(),
            total == countable(attempts_since(theses@.take(i as int), node@, since)),
        decreases theses.len() - i,
    {
        proof {
            assert(theses@.take(i + 1).drop_last() =~= theses@.take(i as int));
            assert(theses@.take(i + 1).last() == theses@[i as int]);
        }
        let ghost before = attempts_since(theses@.take(i as int), node@, since);
        let list = &theses[i].attempts;
        let mut k: usize = 0;
        assert(list@.take(0).len() == 0);
        while k < list.len()
            invariant
                k <= list.len(),
                total == countable(before + made_since(list@.take(k as int), node@, since)),
            decreases list.len() - k,
        {
            proof {
                assert(list@.take(k + 1).drop_last() =~= list@.take(k as int));
                assert(list@.take(k + 1).last() == list@[k as int]);
            }
            if text::same(list[k].node.as_str(), node) && !list[k].created_at.before(&since)
                && total < usize::MAX {
                total = total + 1;
            }
            k = k + 1;
        }
        assert(list@.take(k as int) =~= list@);
        i = i + 1;
    }
    assert(theses@.take(i as int) =~= theses@);
    total
}

/// What one look at the project costs: a request for each list, each thesis and each candidate.
pub open spec fn look_cost(s: RepositoryState) -> int {
    2 + s.theses@.len() + s.pull_request_count
}

/// What is left of the host's limit, and what of it a look at the project takes.
pub open spec fn limits(s: RepositoryState, api_budget: u64, status: RateLimitStatus) -> PaceRateLimit {
    let core = status.resources.core;
    let cost = look_cost(s);
    PaceRateLimit {
        configured_budget: api_budget,
        limit: core.limit,
        remaining: core.remaining,
        used: core.used,
        resets_at: core.reset_time(),
        issue_count: s.theses@.len() as usize,
        pull_request_count: s.pull_request_count,
        derive_cost: cost as u64,
        commands_left: (core.remaining as int / cost) as u64,
        is_low: core.remaining < (if 2 * cost < u64::MAX {
            2 * cost
        } else {
            u64::MAX as int
        }),
    }
}

/// How fast a node may go on, at this time.
pub fn build_output(
    repo: String,
    api_budget: u64,
    node_id: &str,
    resource_policy: String,
    is_default_policy: bool,
    repo_state: &RepositoryState,
    rate_limit: &RateLimitStatus,
    now: Timestamp,
) -> (r: PaceOutput)
    requires
        look_cost(*repo_state) <= u64::MAX,
        now.on_clock(),
        now.secs - 14_400 >= time::FIRST_SECOND,
    ensures
        r.repo == repo,
        r.node_id@ == node_id@,
        r.resource_policy == resource_policy,
        r.is_default_policy == is_default_policy,
        r.api_budget == api_budget,
        r.rate_limit == limits(*repo_state, api_budget, *rate_limit),
        r.attempts_last_hour == countable(
            attempts_since(
                repo_state.theses@,
                node_id@,
                Timestamp { secs: (now.secs - 3_600) as i64, nanos: now.nanos },
            ),
        ),
        r.attempts_last_4_hours == countable(
            attempts_since(
                repo_state.theses@,
                node_id@,
                Timestamp { secs: (now.secs - 14_400) as i64, nanos: now.nanos },
            ),
        ),
        match last_on(repo_state.theses@, node_id@) {
            Some(t) => r.idle_minutes matches Some(m) && m == now.minutes_since(t),
            None => r.idle_minutes is None,
        },
        r.claimable_theses == duties::count_theses(
            repo_state.theses@,
            |t: ThesisState| duties::claimable(t),
        ),
        r.active_claims == countable(commands::held_claims(repo_state.theses@, node_id@)),
        r.is_dated(),
{
    let one_hour_ago = Timestamp { secs: now.secs - 3_600, nanos: now.nanos };
    let four_hours_ago = Timestamp { secs: now.secs - 14_400, nanos: now.nanos };
    let idle_minutes: Option<i64> = match last_activity(repo_state, node_id) {
        Some(t) => Some(now.minutes(&t)),
        None => None,
    };
    let issue_count: usize = repo_state.theses.len();
    let derive_cost: u64 = 2 + issue_count as u64 + repo_state.pull_request_count as u64;
    let remaining: u64 = rate_limit.resources.core.remaining;
    let commands_left: u64 = remaining / derive_cost;
    let twice: u64 = if derive_cost <= u64::MAX / 2 {
        derive_cost * 2
    } else {
        u64::MAX
    };
    let is_low = remaining < twice;
    PaceOutput {
        repo,
        node_id: node_id.to_owned(),
        resource_policy,
        is_default_policy,
        api_budget,
        rate_limit: PaceRateLimit {
            configured_budget: api_budget,
            limit: rate_limit.resources.core.limit,
            remaining,
            used: rate_limit.resources.core.used,
            resets_at: rate_limit.resources.core.reset_at(),
            issue_count,
            pull_request_count: repo_state.pull_request_count,
            derive_cost,
            commands_left,
            is_low,
        },
        attempts_last_hour: count_attempts_since(repo_state, node_id, one_hour_ago),
        attempts_last_4_hours: count_attempts_since(repo_state, node_id, four_hours_ago),
        idle_minutes,
        claimable_theses: duties::count_claimable(&repo_state.theses),
        active_claims: commands::node_active_claims(repo_state, node_id),
    }
}

/// Words put on lines, as many on each as the width has room for: the full lines, and the last
/// one.
pub open spec fn filled(words: Seq<Seq<char>>, width: usize) -> (Seq<Seq<char>>, Seq<char>)
    decreases words.len(),
{
    if words.len() == 0 {
        (Seq::empty(), Seq::empty())
    } else {
        let (lines, line) = filled(words.drop_last(), width);
        let word = words.last();
        if line.len() == 0 {
            (lines, word)
        } else if text::size(line) + 1 + text::size(word) > width {
            (lines.push(line), word)
        } else {
            (lines, line + " "@ + word)
        }
    }
}

/// A text in lines of at most this width, but for longer words.
pub open spec fn wrapped(s: Seq<char>, width: usize) -> Seq<Seq<char>> {
    let (lines, line) = filled(text::words_of(s), width);
    if line.len() == 0 {
        lines
    } else {
        lines.push(line)
    }
}

/// A text in lines of at most this width, but for longer words.
pub fn wrap_text(s: &str, width: usize) -> (r: Vec<String>)
    ensures
        text::texts(r@) == wrapped(s@, width),
{
    let words = text::split_whitespace(s);
    let ghost all = text::words_of(s@);
    let mut lines: Vec<String> = Vec::new();
    let mut line = String::new();
    let mut i: usize = 0;
    proof {
        assert(all.take(0).len() == 0);
        assert(text::texts(lines@) =~= Seq::<Seq<char>>::empty());
        assert(line@ =~= Seq::<char>::empty());
    }
    while i < words.len()
        invariant
            i <= words.len(),
            text::texts(words@) == all,
            (text::texts(lines@), line@) == filled(all.take(i as int), width),
        decreases words.len() - i,
    {
        proof {
            assert(all.take(i + 1).drop_last() =~= all.take(i as int));
            assert(all.take(i + 1).last() == all[i as int]);
            assert(all[i as int] == words@[i as int]@);
        }
        let word = words[i].as_str();
        if line.as_str().unicode_len() == 0 {
            line = word.to_owned();
        } else {
            let taken: usize = line.as_str().as_bytes().len();
            let more: usize = word.as_bytes().len();
            if taken >= width || more >= width - taken {
                let ghost before = lines@;
                lines.push(line);
                proof {
                    text::lemma_texts_push(before, lines@.last());
                }
                line = word.to_owned();
            } else {
                line.append(" ");
                line.append(word);
            }
        }
        i = i + 1;
    }
    assert(all.take(i as int) =~= all);
    if line.as_str().unicode_len() > 0 {
        let ghost before = lines@;
        lines.push(line);
        proof {
            text::lemma_texts_push(before, lines@.last());
        }
    }
    lines
}

/// Further lines behind a text, indented.
pub open spec fn with_lines(start: Seq<char>, lines: Seq<Seq<char>>) -> Seq<char>
    decreases lines.len(),
{
    if lines.len() == 0 {
        start
    } else {
        with_lines(start, lines.drop_last()) + "\n  "@ + lines.last()
    }
}

/// A policy behind its label, in lines.
pub open spec fn wrapped_policy(label: Seq<char>, policy: Seq<char>) -> Seq<char> {
    let lines = wrapped(policy, 72);
    if lines.len() == 0 {
        label + ":"@
    } else {
        with_lines(label + ": "@ + lines[0], lines.skip(1))
    }
}

/// A policy behind its label, in lines.
pub fn format_wrapped_policy(label: &str, policy: &str) -> (r: String)
    ensures
        r@ == wrapped_policy(label@, policy@),
{
    let lines = wrap_text(policy, 72);
    let ghost all = wrapped(policy@, 72);
    assert(all.len() == lines@.len());
    let mut r = label.to_owned();
    if lines.len() == 0 {
        r.append(":");
        return r;
    }
    r.append(": ");
    r.append(lines[0].as_str());
    let ghost start = r@;
    let ghost rest = all.skip(1);
    let mut i: usize = 1;
    proof {
        assert(all[0] == lines@[0]@);
        assert(rest.take(0).len() == 0);
    }
    while i < lines.len()
        invariant
            1 <= i <= lines.len(),
            all == text::texts(lines@),
            rest == all.skip(1),
            r@ == with_lines(start, rest.take(i - 1)),
        decreases lines.len() - i,
    {
        proof {
            assert(rest.take(i as int).drop_last() =~= rest.take(i - 1));
            assert(rest.take(i as int).last() == lines@[i as int]@);
        }
        r.append("\n  ");
        r.append(lines[i].as_str());
        i = i + 1;
    }
    assert(rest.take(i - 1) =~= rest);
    r
}

impl PaceOutput {
    /// When the host's limit is filled again, as it is shown.
    pub open spec fn shown_reset(&self, now: Timestamp) -> Seq<char> {
        match self.rate_limit.resets_at {
            Some(t) => time::rfc3339_text(t.secs, t.nanos) + " (in "@ + text::decimal(
                t.minutes_since(now) as nat,
            ) + " min)"@,
            None => "unknown"@,
        }
    }

    /// The lines on the host's limit.
    pub open spec fn shown_budget(&self, now: Timestamp) -> Seq<char> {
        let l = self.rate_limit;
        "\n\nAPI budget:\n  Configured budget:           "@ + text::decimal(
            l.configured_budget as nat,
        ) + "/hr\n  GitHub core limit:           "@ + text::decimal(l.limit as nat)
            + "/hr\n  Remaining quota:             "@ + text::decimal(l.remaining as nat)
            + "\n  Used quota:                  "@ + text::decimal(l.used as nat)
            + "\n  Resets at:                   "@ + self.shown_reset(now)
            + "\n  Cost per command:            "@ + text::decimal(l.derive_cost as nat)
            + " calls ("@ + text::decimal(l.issue_count as nat) + " issues + "@ + text::decimal(
            l.pull_request_count as nat,
        ) + " PRs + 2 lists)\n  Commands left:               ~"@ + text::decimal(
            l.commands_left as nat,
        ) + "\n  Near limit:                  "@ + (if l.is_low {
            "yes"@
        } else {
            "no"@
        })
    }

    /// The lines on what the node does.
    pub open spec fn shown_throughput(&self) -> Seq<char> {
        "\n\nThroughput ("@ + self.node_id@ + "):\n  Attempts last hour:          "@
            + text::decimal(self.attempts_last_hour as nat)
            + "\n  Attempts last 4 hours:       "@ + text::decimal(
            self.attempts_last_4_hours as nat,
        ) + "\n  Minutes since last activity: "@ + (match self.idle_minutes {
            Some(m) => text::decimal(m as nat),
            None => "n/a"@,
        }) + "\n  Claimable theses idle:       "@ + text::decimal(self.claimable_theses as nat)
            + "\n  Active claims:               "@ + text::decimal(self.active_claims as nat)
    }

    /// The output as it is shown.
    pub open spec fn shown(&self, now: Timestamp) -> Seq<char> {
        wrapped_policy(
            if self.is_default_policy {
                "Resource policy (default)"@
            } else {
                "Resource policy"@
            },
            self.resource_policy@,
        ) + self.shown_budget(now) + self.shown_throughput()
    }

    /// The output has points and spans of time that can be shown.
    pub open spec fn is_dated(&self) -> bool {
        &&& self.rate_limit.resets_at matches Some(t) ==> t.on_calendar()
        &&& self.idle_minutes matches Some(m) ==> m >= 0
    }

    fn show_reset(&self, now: &Timestamp) -> (r: String)
        requires
            self.is_dated(),
        ensures
            r@ == self.shown_reset(*now),
    {
        match &self.rate_limit.resets_at {
            Some(t) => {
                let minutes: i64 = t.minutes(now);
                let mut r = time::write_rfc3339(t);
                r.append(" (in ");
                r.append(text::number(minutes as u64).as_str());
                r.append(" min)");
                r
            },
            None => "unknown".to_owned(),
        }
    }

    fn show_budget(&self, now: &Timestamp) -> (r: String)
        requires
            self.is_dated(),
        ensures
            r@ == self.shown_budget(*now),
    {
        let l = &self.rate_limit;
        let mut r = "\n\nAPI budget:\n  Configured budget:           ".to_owned();
        r.append(text::number(l.configured_budget).as_str());
        r.append("/hr\n  GitHub core limit:           ");
        r.append(text::number(l.limit).as_str());
        r.append("/hr\n  Remaining quota:             ");
        r.append(text::number(l.remaining).as_str());
        r.append("\n  Used quota:                  ");
        r.append(text::number(l.used).as_str());
        r.append("\n  Resets at:                   ");
        r.append(self.show_reset(now).as_str());
        r.append("\n  Cost per command:            ");
        r.append(text::number(l.derive_cost).as_str());
        r.append(" calls (");
        r.append(text::number(l.issue_count as u64).as_str());
        r.append(" issues + ");
        r.append(text::number(l.pull_request_count as u64).as_str());
        r.append(" PRs + 2 lists)\n  Commands left:               ~");
        r.append(text::number(l.commands_left).as_str());
        r.append("\n  Near limit:                  ");
        if l.is_low {
            r.append("yes");
        } else {
            r.append("no");
        }
        r
    }

    fn show_throughput(&self) -> (r: String)
        requires
            self.is_dated(),
        ensures
            r@ == self.shown_throughput(),
    {
        let mut r = "\n\nThroughput (".to_owned();
        r.append(self.node_id.as_str());
        r.append("):\n  Attempts last hour:          ");
        r.append(text::number(self.attempts_last_hour as u64).as_str());
        r.append("\n  Attempts last 4 hours:       ");
        r.append(text::number(self.attempts_last_4_hours as u64).as_str());
        r.append("\n  Minutes since last activity: ");
        match self.idle_minutes {
            Some(m) => r.append(text::number(m as u64).as_str()),
            None => r.append("n/a"),
        }
        r.append("\n  Claimable theses idle:       ");
        r.append(text::number(self.claimable_theses as u64).as_str());
        r.append("\n  Active claims:               ");
        r.append(text::number(self.active_claims as u64).as_str());
        r
    }

    /// The output as it is shown at this time.
    pub fn text(&self, now: Timestamp) -> (r: String)
        requires
            self.is_dated(),
        ensures
            r@ == self.shown(now),
    {
        let label = if self.is_default_policy {
            "Resource policy (default)"
        } else {
            "Resource policy"
        };
        let mut r = format_wrapped_policy(label, self.resource_policy.as_str());
        r.append(self.show_budget(&now).as_str());
        r.append(self.show_throughput().as_str());
        r
    }

    /// What is said where the host's limit is reached.
    pub open spec fn limit_notice(&self, now: Timestamp) -> Seq<char> {
        match self.rate_limit.resets_at {
            Some(t) => "RATE LIMITED: wait about "@ + text::decimal(t.minutes_since(now) as nat)
                + " minutes for the GitHub core quota to reset at "@ + time::rfc3339_text(
                t.secs,
                t.nanos,
            ) + " before continuing."@,
            None => "RATE LIMITED: wait for the GitHub core quota to reset before continuing."@,
        }
    }

    /// Goes on only where what is left of the host's limit is enough for a look at the project.
    pub fn ensure_quota(&self, now: Timestamp) -> (r: Result<(), ProcessExit>)
        requires
            self.is_dated(),
        ensures
            if self.rate_limit.remaining < self.rate_limit.derive_cost {
                r matches Err(exit) && exit.code == RATE_LIMIT_EXIT_CODE && exit.message@
                    == self.limit_notice(now)
            } else {
                r is Ok
            },
    {
        if self.rate_limit.remaining >= self.rate_limit.derive_cost {
            return Ok(());
        }
        let message = match &self.rate_limit.resets_at {
            Some(t) => {
                let minutes: i64 = t.minutes(&now);
                let mut m = text::say(
                    "RATE LIMITED: wait about ",
                    minutes as u64,
                    " minutes for the GitHub core quota to reset at ",
                );
                m.append(time::write_rfc3339(t).as_str());
                m.append(" before continuing.");
                m
            },
            None => {
                "RATE LIMITED: wait for the GitHub core quota to reset before continuing.".to_owned()
            },
        };
        commands::exit_with(RATE_LIMIT_EXIT_CODE, message.as_str())
    }
}

} // verus!
