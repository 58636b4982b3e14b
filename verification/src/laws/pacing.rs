//! What holds of how fast a node goes on, and of what waits for the maintainer.
use crate::commands;
use crate::commands::duties;
use crate::commands::pace;
use crate::commands::pace::PaceOutput;
use crate::commands::status;
use crate::commands::ProcessExit;
use crate::github::RateLimitStatus;
use crate::laws::theses::before;
use crate::state::{
    AttemptRecord, ClaimRecord, PullRequestState, ReleaseRecord, RepositoryState,
    ReviewClaimRecord, ReviewRecord, ThesisPhase, ThesisState,
};
use crate::text;
use crate::time::Timestamp;
use vstd::prelude::*;

verus! {

/// One of the node's claims was made at the time.
pub open spec fn one_of_claims(list: Seq<ClaimRecord>, node: Seq<char>, at: Timestamp) -> bool {
    exists|i: int|
        0 <= i < list.len() && (#[trigger] list[i]).node@ == node && list[i].created_at == at
}

/// One of the node's releases was made at the time.
pub open spec fn one_of_releases(list: Seq<ReleaseRecord>, node: Seq<char>, at: Timestamp) -> bool {
    exists|i: int|
        0 <= i < list.len() && (#[trigger] list[i]).node@ == node && list[i].created_at == at
}

/// One of the node's attempts was made at the time.
pub open spec fn one_of_attempts(list: Seq<AttemptRecord>, node: Seq<char>, at: Timestamp) -> bool {
    exists|i: int|
        0 <= i < list.len() && (#[trigger] list[i]).node@ == node && list[i].created_at == at
}

/// One of the node's review claims was made at the time.
pub open spec fn one_of_review_claims(list: Seq<ReviewClaimRecord>, node: Seq<char>, at: Timestamp) -> bool {
    exists|i: int|
        0 <= i < list.len() && (#[trigger] list[i]).node@ == node && list[i].created_at == at
}

/// One of the node's reviews was made at the time.
pub open spec fn one_of_reviews(list: Seq<ReviewRecord>, node: Seq<char>, at: Timestamp) -> bool {
    exists|i: int|
        0 <= i < list.len() && (#[trigger] list[i]).node@ == node && list[i].created_at == at
}

/// The node claimed or reviewed one of the candidates at the time.
pub open spec fn reviewed_at(prs: Seq<PullRequestState>, node: Seq<char>, at: Timestamp) -> bool {
    exists|i: int|
        0 <= i < prs.len() && (one_of_review_claims((#[trigger] prs[i]).review_claims@, node, at)
            || one_of_reviews(prs[i].reviews@, node, at))
}

/// The node claimed, released, attempted or reviewed something of the thesis at the time.
pub open spec fn worked_at(t: ThesisState, node: Seq<char>, at: Timestamp) -> bool {
    ||| one_of_claims(t.active_claims@, node, at)
    ||| one_of_releases(t.releases@, node, at)
    ||| one_of_attempts(t.attempts@, node, at)
    ||| reviewed_at(t.pull_requests@, node, at)
}

/// The node did something for one of the theses at the time.
pub open spec fn active_at(theses: Seq<ThesisState>, node: Seq<char>, at: Timestamp) -> bool {
    exists|i: int| 0 <= i < theses.len() && worked_at(#[trigger] theses[i], node, at)
}

proof fn lemma_last_of_claims(list: Seq<ClaimRecord>, node: Seq<char>)
    ensures
        forall|at: Timestamp| #[trigger]
            one_of_claims(list, node, at) ==> (pace::last_of_claims(list, node) matches Some(t)
                && !before(t, at)),
        pace::last_of_claims(list, node) matches Some(t) ==> one_of_claims(list, node, t),
    decreases list.len(),
{
    if list.len() > 0 {
        let rest = list.drop_last();
        lemma_last_of_claims(rest, node);
        assert forall|at: Timestamp| #[trigger] one_of_claims(list, node, at) implies (
        one_of_claims(rest, node, at) || (list.last().node@ == node && list.last().created_at
            == at)) by {
            let i = choose|i: int|
                0 <= i < list.len() && (#[trigger] list[i]).node@ == node && list[i].created_at
                    == at;
            if i < rest.len() {
                assert(rest[i] == list[i]);
            }
        }
        if let Some(t) = pace::last_of_claims(rest, node) {
            let i = choose|i: int|
                0 <= i < rest.len() && (#[trigger] rest[i]).node@ == node && rest[i].created_at
                    == t;
            assert(list[i] == rest[i]);
            assert(one_of_claims(list, node, t));
        }
        assert(list[list.len() - 1] == list.last());
    }
}

proof fn lemma_last_of_releases(list: Seq<ReleaseRecord>, node: Seq<char>)
    ensures
        forall|at: Timestamp| #[trigger]
            one_of_releases(list, node, at) ==> (pace::last_of_releases(list, node) matches Some(t)
                && !before(t, at)),
        pace::last_of_releases(list, node) matches Some(t) ==> one_of_releases(list, node, t),
    decreases list.len(),
{
    if list.len() > 0 {
        let rest = list.drop_last();
        lemma_last_of_releases(rest, node);
        assert forall|at: Timestamp| #[trigger] one_of_releases(list, node, at) implies (
        one_of_releases(rest, node, at) || (list.last().node@ == node && list.last().created_at
            == at)) by {
            let i = choose|i: int|
                0 <= i < list.len() && (#[trigger] list[i]).node@ == node && list[i].created_at
                    == at;
            if i < rest.len() {
                assert(rest[i] == list[i]);
            }
        }
        if let Some(t) = pace::last_of_releases(rest, node) {
            let i = choose|i: int|
                0 <= i < rest.len() && (#[trigger] rest[i]).node@ == node && rest[i].created_at
                    == t;
            assert(list[i] == rest[i]);
            assert(one_of_releases(list, node, t));
        }
        assert(list[list.len() - 1] == list.last());
    }
}

proof fn lemma_last_of_attempts(list: Seq<AttemptRecord>, node: Seq<char>)
    ensures
        forall|at: Timestamp| #[trigger]
            one_of_attempts(list, node, at) ==> (pace::last_of_attempts(list, node) matches Some(t)
                && !before(t, at)),
        pace::last_of_attempts(list, node) matches Some(t) ==> one_of_attempts(list, node, t),
    decreases list.len(),
{
    if list.len() > 0 {
        let rest = list.drop_last();
        lemma_last_of_attempts(rest, node);
        assert forall|at: Timestamp| #[trigger] one_of_attempts(list, node, at) implies (
        one_of_attempts(rest, node, at) || (list.last().node@ == node && list.last().created_at
            == at)) by {
            let i = choose|i: int|
                0 <= i < list.len() && (#[trigger] list[i]).node@ == node && list[i].created_at
                    == at;
            if i < rest.len() {
                assert(rest[i] == list[i]);
            }
        }
        if let Some(t) = pace::last_of_attempts(rest, node) {
            let i = choose|i: int|
                0 <= i < rest.len() && (#[trigger] rest[i]).node@ == node && rest[i].created_at
                    == t;
            assert(list[i] == rest[i]);
            assert(one_of_attempts(list, node, t));
        }
        assert(list[list.len() - 1] == list.last());
    }
}

proof fn lemma_last_of_review_claims(list: Seq<ReviewClaimRecord>, node: Seq<char>)
    ensures
        forall|at: Timestamp| #[trigger]
            one_of_review_claims(list, node, at) ==> (pace::last_of_review_claims(list, node) matches Some(t)
                && !before(t, at)),
        pace::last_of_review_claims(list, node) matches Some(t) ==> one_of_review_claims(list, node, t),
    decreases list.len(),
{
    if list.len() > 0 {
        let rest = list.drop_last();
        lemma_last_of_review_claims(rest, node);
        assert forall|at: Timestamp| #[trigger] one_of_review_claims(list, node, at) implies (
        one_of_review_claims(rest, node, at) || (list.last().node@ == node && list.last().created_at
            == at)) by {
            let i = choose|i: int|
                0 <= i < list.len() && (#[trigger] list[i]).node@ == node && list[i].created_at
                    == at;
            if i < rest.len() {
                assert(rest[i] == list[i]);
            }
        }
        if let Some(t) = pace::last_of_review_claims(rest, node) {
            let i = choose|i: int|
                0 <= i < rest.len() && (#[trigger] rest[i]).node@ == node && rest[i].created_at
                    == t;
            assert(list[i] == rest[i]);
            assert(one_of_review_claims(list, node, t));
        }
        assert(list[list.len() - 1] == list.last());
    }
}

proof fn lemma_last_of_reviews(list: Seq<ReviewRecord>, node: Seq<char>)
    ensures
        forall|at: Timestamp| #[trigger]
            one_of_reviews(list, node, at) ==> (pace::last_of_reviews(list, node) matches Some(t)
                && !before(t, at)),
        pace::last_of_reviews(list, node) matches Some(t) ==> one_of_reviews(list, node, t),
    decreases list.len(),
{
    if list.len() > 0 {
        let rest = list.drop_last();
        lemma_last_of_reviews(rest, node);
        assert forall|at: Timestamp| #[trigger] one_of_reviews(list, node, at) implies (
        one_of_reviews(rest, node, at) || (list.last().node@ == node && list.last().created_at
            == at)) by {
            let i = choose|i: int|
                0 <= i < list.len() && (#[trigger] list[i]).node@ == node && list[i].created_at
                    == at;
            if i < rest.len() {
                assert(rest[i] == list[i]);
            }
        }
        if let Some(t) = pace::last_of_reviews(rest, node) {
            let i = choose|i: int|
                0 <= i < rest.len() && (#[trigger] rest[i]).node@ == node && rest[i].created_at
                    == t;
            assert(list[i] == rest[i]);
            assert(one_of_reviews(list, node, t));
        }
        assert(list[list.len() - 1] == list.last());
    }
}

proof fn lemma_last_on_candidates(prs: Seq<PullRequestState>, node: Seq<char>)
    ensures
        forall|at: Timestamp| #[trigger]
            reviewed_at(prs, node, at) ==> (pace::last_on_candidates(prs, node) matches Some(t)
                && !before(t, at)),
        pace::last_on_candidates(prs, node) matches Some(t) ==> reviewed_at(prs, node, t),
    decreases prs.len(),
{
    if prs.len() > 0 {
        let rest = prs.drop_last();
        let p = prs.last();
        lemma_last_on_candidates(rest, node);
        lemma_last_of_review_claims(p.review_claims@, node);
        lemma_last_of_reviews(p.reviews@, node);
        assert(prs[prs.len() - 1] == p);
        assert forall|at: Timestamp| #[trigger] reviewed_at(prs, node, at) implies (reviewed_at(
            rest,
            node,
            at,
        ) || one_of_review_claims(p.review_claims@, node, at) || one_of_reviews(
            p.reviews@,
            node,
            at,
        )) by {
            let i = choose|i: int|
                0 <= i < prs.len() && (one_of_review_claims(
                    (#[trigger] prs[i]).review_claims@,
                    node,
                    at,
                ) || one_of_reviews(prs[i].reviews@, node, at));
            if i < rest.len() {
                assert(rest[i] == prs[i]);
            }
        }
        if let Some(t) = pace::last_on_candidates(rest, node) {
            let i = choose|i: int|
                0 <= i < rest.len() && (one_of_review_claims(
                    (#[trigger] rest[i]).review_claims@,
                    node,
                    t,
                ) || one_of_reviews(rest[i].reviews@, node, t));
            assert(prs[i] == rest[i]);
            assert(reviewed_at(prs, node, t));
        }
    }
}

proof fn lemma_last_on_thesis(t: ThesisState, node: Seq<char>)
    ensures
        forall|at: Timestamp| #[trigger]
            worked_at(t, node, at) ==> (pace::last_on_thesis(t, node) matches Some(l)
                && !before(l, at)),
        pace::last_on_thesis(t, node) matches Some(l) ==> worked_at(t, node, l),
{
    lemma_last_of_claims(t.active_claims@, node);
    lemma_last_of_releases(t.releases@, node);
    lemma_last_of_attempts(t.attempts@, node);
    lemma_last_on_candidates(t.pull_requests@, node);
}

proof fn lemma_last_on(theses: Seq<ThesisState>, node: Seq<char>)
    ensures
        forall|at: Timestamp| #[trigger]
            active_at(theses, node, at) ==> (pace::last_on(theses, node) matches Some(t)
                && !before(t, at)),
        pace::last_on(theses, node) matches Some(t) ==> active_at(theses, node, t),
    decreases theses.len(),
{
    if theses.len() > 0 {
        let rest = theses.drop_last();
        lemma_last_on(rest, node);
        lemma_last_on_thesis(theses.last(), node);
        assert(theses[theses.len() - 1] == theses.last());
        assert forall|at: Timestamp| #[trigger] active_at(theses, node, at) implies (active_at(
            rest,
            node,
            at,
        ) || worked_at(theses.last(), node, at)) by {
            let i = choose|i: int|
                0 <= i < theses.len() && worked_at(#[trigger] theses[i], node, at);
            if i < rest.len() {
                assert(rest[i] == theses[i]);
            }
        }
        if let Some(t) = pace::last_on(rest, node) {
            let i = choose|i: int| 0 <= i < rest.len() && worked_at(#[trigger] rest[i], node, t);
            assert(theses[i] == rest[i]);
            assert(active_at(theses, node, t));
        }
    }
}

/// A node's last activity is one of its claims, releases, attempts, review claims and reviews, and
/// none of these was made later. There is none only where the node did nothing.
pub proof fn the_last_activity_is_the_latest(s: RepositoryState, node: &str, r: Option<Timestamp>)
    requires
        call_ensures(pace::last_activity, (&s, node), r),
    ensures
        r matches Some(t) ==> active_at(s.theses@, node@, t),
        forall|at: Timestamp| #[trigger]
            active_at(s.theses@, node@, at) ==> (r matches Some(t)
                && !before(t, at)),
{
    lemma_last_on(s.theses@, node@);
}

/// The node made the attempt at the time or later.
pub open spec fn made_from(node: Seq<char>, since: Timestamp) -> spec_fn(AttemptRecord) -> bool {
    |x: AttemptRecord| x.node@ == node && !before(x.created_at, since)
}

/// The claim is in the node's name.
pub open spec fn in_name(node: Seq<char>) -> spec_fn(ClaimRecord) -> bool {
    |c: ClaimRecord| c.node@ == node
}

/// All attempts at the theses, in their order.
pub open spec fn all_attempts(theses: Seq<ThesisState>) -> Seq<AttemptRecord> {
    theses.map_values(|t: ThesisState| t.attempts@).flatten()
}

/// The attempts that the node made at the time or later.
pub open spec fn attempts_from(
    theses: Seq<ThesisState>,
    node: Seq<char>,
    since: Timestamp,
) -> Seq<AttemptRecord> {
    all_attempts(theses).filter(made_from(node, since))
}

/// All active claims on the theses, in their order.
pub open spec fn all_claims(theses: Seq<ThesisState>) -> Seq<ClaimRecord> {
    theses.map_values(|t: ThesisState| t.active_claims@).flatten()
}

/// The active claims in the node's name.
pub open spec fn claims_by(theses: Seq<ThesisState>, node: Seq<char>) -> Seq<ClaimRecord> {
    all_claims(theses).filter(in_name(node))
}

proof fn lemma_made_since(a: Seq<AttemptRecord>, node: Seq<char>, since: Timestamp)
    ensures
        pace::made_since(a, node, since) == a.filter(made_from(node, since)).len(),
    decreases a.len(),
{
    reveal(Seq::filter);
    if a.len() > 0 {
        lemma_made_since(a.drop_last(), node, since);
    }
}

proof fn lemma_attempts_since(theses: Seq<ThesisState>, node: Seq<char>, since: Timestamp)
    ensures
        pace::attempts_since(theses, node, since) == attempts_from(theses, node, since).len(),
    decreases theses.len(),
{
    let f = |t: ThesisState| t.attempts@;
    let own = made_from(node, since);
    if theses.len() > 0 {
        let rest = theses.drop_last();
        lemma_attempts_since(rest, node, since);
        lemma_made_since(theses.last().attempts@, node, since);
        assert(theses.map_values(f) =~= rest.map_values(f).push(f(theses.last())));
        rest.map_values(f).lemma_flatten_push(f(theses.last()));
        assert(all_attempts(theses) =~= all_attempts(rest) + theses.last().attempts@);
        Seq::filter_distributes_over_add(all_attempts(rest), theses.last().attempts@, own);
    } else {
        reveal(Seq::filter);
        assert(theses.map_values(f) =~= Seq::empty());
        assert(all_attempts(theses) =~= Seq::empty());
    }
}

/// An attempt counts where the node made it at the time or later, whatever thesis it is at.
pub proof fn attempts_count_from_a_time_on(
    s: RepositoryState,
    node: &str,
    since: Timestamp,
    r: usize,
)
    requires
        call_ensures(pace::count_attempts_since, (&s, node, since), r),
    ensures
        ({
            let own = attempts_from(s.theses@, node@, since);
            &&& own.len() <= usize::MAX ==> r == own.len()
            &&& own.len() > usize::MAX ==> r == usize::MAX
        }),
{
    lemma_attempts_since(s.theses@, node@, since);
}

/// What is counted from an earlier time on is no less.
pub proof fn a_longer_time_holds_no_fewer_attempts(
    s: RepositoryState,
    node: &str,
    early: Timestamp,
    late: Timestamp,
    r: usize,
    q: usize,
)
    requires
        call_ensures(pace::count_attempts_since, (&s, node, late), r),
        call_ensures(pace::count_attempts_since, (&s, node, early), q),
        !before(late, early),
    ensures
        r <= q,
{
    lemma_more_since(s.theses@, node@, early, late);
}

proof fn lemma_more_made(a: Seq<AttemptRecord>, node: Seq<char>, early: Timestamp, late: Timestamp)
    requires
        !before(late, early),
    ensures
        pace::made_since(a, node, late) <= pace::made_since(a, node, early),
    decreases a.len(),
{
    if a.len() > 0 {
        lemma_more_made(a.drop_last(), node, early, late);
    }
}

proof fn lemma_more_since(
    theses: Seq<ThesisState>,
    node: Seq<char>,
    early: Timestamp,
    late: Timestamp,
)
    requires
        !before(late, early),
    ensures
        pace::attempts_since(theses, node, late) <= pace::attempts_since(theses, node, early),
    decreases theses.len(),
{
    if theses.len() > 0 {
        lemma_more_since(theses.drop_last(), node, early, late);
        lemma_more_made(theses.last().attempts@, node, early, late);
    }
}

proof fn lemma_claims_of(t: ThesisState, node: Seq<char>, n: nat)
    requires
        n <= t.active_claims@.len(),
    ensures
        commands::claims_of(t, node, n) == t.active_claims@.take(n as int).filter(in_name(node)).len(),
    decreases n,
{
    reveal(Seq::filter);
    if n > 0 {
        lemma_claims_of(t, node, (n - 1) as nat);
        let all = t.active_claims@.take(n as int);
        assert(all.drop_last() =~= t.active_claims@.take(n - 1));
        assert(all.last() == t.active_claims@[n - 1]);
    }
}

proof fn lemma_held_claims(theses: Seq<ThesisState>, node: Seq<char>)
    ensures
        commands::held_claims(theses, node) == claims_by(theses, node).len(),
    decreases theses.len(),
{
    let f = |t: ThesisState| t.active_claims@;
    let own = in_name(node);
    if theses.len() > 0 {
        let rest = theses.drop_last();
        let t = theses.last();
        lemma_held_claims(rest, node);
        lemma_claims_of(t, node, t.active_claims@.len());
        assert(t.active_claims@.take(t.active_claims@.len() as int) =~= t.active_claims@);
        assert(theses.map_values(f) =~= rest.map_values(f).push(f(t)));
        rest.map_values(f).lemma_flatten_push(f(t));
        assert(all_claims(theses) =~= all_claims(rest) + t.active_claims@);
        Seq::filter_distributes_over_add(all_claims(rest), t.active_claims@, own);
    } else {
        reveal(Seq::filter);
        assert(theses.map_values(f) =~= Seq::empty());
        assert(all_claims(theses) =~= Seq::empty());
    }
}

/// A node holds as many claims as there are active ones in its name.
pub proof fn claims_in_the_own_name(s: RepositoryState, node: &str, r: usize)
    requires
        call_ensures(commands::node_active_claims, (&s, node), r),
    ensures
        ({
            let own = claims_by(s.theses@, node@);
            &&& own.len() <= usize::MAX ==> r == own.len()
            &&& own.len() > usize::MAX ==> r == usize::MAX
        }),
{
    lemma_held_claims(s.theses@, node@);
}

/// A look at a project asks the host for two lists, each thesis and each candidate. As many looks
/// are left as fit into what is left of the host's limit, which is low where fewer than two do.
pub proof fn what_is_left_of_the_limit(
    repo: String,
    budget: u64,
    node: &str,
    policy: String,
    usual: bool,
    s: RepositoryState,
    status: RateLimitStatus,
    now: Timestamp,
    r: PaceOutput,
)
    requires
        call_ensures(
            pace::build_output,
            (repo, budget, node, policy, usual, &s, &status, now),
            r,
        ),
        4 + 2 * s.theses@.len() + 2 * s.pull_request_count <= u64::MAX,
    ensures
        ({
            let core = status.resources.core;
            let l = r.rate_limit;
            &&& l.configured_budget == budget
            &&& l.limit == core.limit
            &&& l.remaining == core.remaining
            &&& l.used == core.used
            &&& l.derive_cost == 2 + s.theses@.len() + s.pull_request_count
            &&& l.commands_left * l.derive_cost <= core.remaining < (l.commands_left + 1)
                * l.derive_cost
            &&& l.is_low <==> l.commands_left < 2
            &&& core.reset <= 4_102_444_800 ==> l.resets_at == Some(
                Timestamp { secs: core.reset as i64, nanos: 0 },
            )
        }),
{
    let core = status.resources.core;
    let l = r.rate_limit;
    let cost: int = 2 + s.theses@.len() + s.pull_request_count;
    assert(l.derive_cost == cost);
    let rem: int = core.remaining as int;
    let q: int = rem / cost;
    assert(q * cost <= rem < (q + 1) * cost && 0 <= q <= rem) by (nonlinear_arith)
        requires
            q == rem / cost,
            cost >= 2,
            rem >= 0,
    ;
    assert(l.commands_left == q);
    assert(q < 2 <==> rem < 2 * cost) by (nonlinear_arith)
        requires
            q * cost <= rem < (q + 1) * cost,
            cost >= 2,
    ;
}

/// The attempts of the last hour and of the last four are those that the node made at most so long
/// ago; a node is idle since the last thing that it did.
pub proof fn how_busy_a_node_was(
    repo: String,
    budget: u64,
    node: &str,
    policy: String,
    usual: bool,
    s: RepositoryState,
    status: RateLimitStatus,
    now: Timestamp,
    r: PaceOutput,
    t: Timestamp,
)
    requires
        call_ensures(
            pace::build_output,
            (repo, budget, node, policy, usual, &s, &status, now),
            r,
        ),
        i64::MIN + 14_400 <= now.secs,
        now.nanos < 1_000_000_000,
        all_attempts(s.theses@).len() <= usize::MAX,
        all_claims(s.theses@).len() <= usize::MAX,
    ensures
        r.repo@ == repo@,
        r.node_id@ == node@,
        r.resource_policy@ == policy@,
        r.is_default_policy == usual,
        r.api_budget == budget,
        r.attempts_last_hour == attempts_from(
            s.theses@,
            node@,
            Timestamp { secs: (now.secs - 60 * 60) as i64, nanos: now.nanos },
        ).len(),
        r.attempts_last_4_hours == attempts_from(
            s.theses@,
            node@,
            Timestamp { secs: (now.secs - 4 * 60 * 60) as i64, nanos: now.nanos },
        ).len(),
        r.attempts_last_hour <= r.attempts_last_4_hours,
        r.idle_minutes is Some <==> exists|at: Timestamp| #[trigger]
            active_at(s.theses@, node@, at),
        (active_at(s.theses@, node@, t) && t.nanos < 1_000_000_000 && (forall|at: Timestamp|
            #[trigger]
            active_at(s.theses@, node@, at) ==> at == t || before(at, t))) ==> ({
            let gone = (now.secs - t.secs) * 1_000_000_000 + now.nanos - t.nanos;
            &&& r.idle_minutes matches Some(m)
            &&& gone < 0 ==> m == 0
            &&& gone >= 0 ==> m * 60_000_000_000 <= gone < (m + 1) * 60_000_000_000
        }),
        r.active_claims == claims_by(s.theses@, node@).len(),
        r.claimable_theses == s.theses@.filter(
            |t: ThesisState| t.issue.state@ == "OPEN"@ && t.phase == ThesisPhase::Approved,
        ).len(),
{
    let hour = Timestamp { secs: (now.secs - 3_600) as i64, nanos: now.nanos };
    let four = Timestamp { secs: (now.secs - 14_400) as i64, nanos: now.nanos };
    lemma_attempts_since(s.theses@, node@, hour);
    lemma_attempts_since(s.theses@, node@, four);
    lemma_more_since(s.theses@, node@, four, hour);
    lemma_held_claims(s.theses@, node@);
    lemma_last_on(s.theses@, node@);
    lemma_no_more(s.theses@, node@, hour);
    lemma_no_more(s.theses@, node@, four);
    let f = |t: ThesisState| duties::claimable(t);
    lemma_count(s.theses@, f);
    assert(f =~= |t: ThesisState| t.issue.state@ == "OPEN"@ && t.phase == ThesisPhase::Approved);
}

proof fn lemma_no_more(theses: Seq<ThesisState>, node: Seq<char>, since: Timestamp)
    ensures
        attempts_from(theses, node, since).len() <= all_attempts(theses).len(),
        claims_by(theses, node).len() <= all_claims(theses).len(),
{
    all_attempts(theses).lemma_filter_len(made_from(node, since));
    all_claims(theses).lemma_filter_len(in_name(node));
}

proof fn lemma_count(theses: Seq<ThesisState>, f: spec_fn(ThesisState) -> bool)
    ensures
        duties::count_theses(theses, f) == theses.filter(f).len(),
    decreases theses.len(),
{
    reveal(Seq::filter);
    if theses.len() > 0 {
        lemma_count(theses.drop_last(), f);
    }
}

/// A node goes on exactly where one more look at the project fits into what is left of the host's
/// limit; otherwise it ends with a code of its own.
pub proof fn a_node_goes_on_within_the_limit(
    p: PaceOutput,
    now: Timestamp,
    r: Result<(), ProcessExit>,
)
    requires
        call_ensures(PaceOutput::ensure_quota, (&p, now), r),
    ensures
        r is Ok <==> p.rate_limit.remaining >= p.rate_limit.derive_cost,
        r matches Err(e) ==> e.code == 75,
{
}

/// A text asks the maintainer for something.
pub open spec fn asked(r: Vec<String>, start: Seq<char>, number: u64, end: Seq<char>) -> bool {
    exists|k: int|
        0 <= k < r@.len() && (#[trigger] r@[k])@ == start + text::decimal(number as nat) + end
}

proof fn lemma_own_listed(prs: Seq<PullRequestState>, i: int)
    requires
        0 <= i < prs.len(),
    ensures
        forall|x: Seq<char>| #[trigger]
            status::candidate_items(prs[i]).contains(x) ==> status::candidates_items(
                prs,
            ).contains(x),
    decreases prs.len(),
{
    let rest = prs.drop_last();
    let a = status::candidates_items(rest);
    let b = status::candidate_items(prs.last());
    if i < rest.len() {
        assert(rest[i] == prs[i]);
        lemma_own_listed(rest, i);
    }
    assert forall|x: Seq<char>| #[trigger]
        status::candidate_items(prs[i]).contains(x) implies (a + b).contains(x) by {
        lemma_in_sum(a, b, x);
    }
}

proof fn lemma_in_sum(a: Seq<Seq<char>>, b: Seq<Seq<char>>, x: Seq<char>)
    ensures
        (a + b).contains(x) <==> a.contains(x) || b.contains(x),
{
    if a.contains(x) {
        let k = choose|k: int| 0 <= k < a.len() && a[k] == x;
        assert((a + b)[k] == x);
    }
    if b.contains(x) {
        let k = choose|k: int| 0 <= k < b.len() && b[k] == x;
        assert((a + b)[a.len() + k] == x);
    }
}

proof fn lemma_thesis_listed(theses: Seq<ThesisState>, i: int)
    requires
        0 <= i < theses.len(),
    ensures
        forall|x: Seq<char>| #[trigger]
            status::thesis_items(theses[i]).contains(x) ==> status::items_of(theses).contains(x),
    decreases theses.len(),
{
    let rest = theses.drop_last();
    let a = status::items_of(rest);
    let b = status::thesis_items(theses.last());
    if i < rest.len() {
        assert(rest[i] == theses[i]);
        lemma_thesis_listed(rest, i);
    }
    assert forall|x: Seq<char>| #[trigger]
        status::thesis_items(theses[i]).contains(x) implies (a + b).contains(x) by {
        lemma_in_sum(a, b, x);
    }
}

proof fn lemma_listed_own(prs: Seq<PullRequestState>, x: Seq<char>) -> (i: int)
    requires
        status::candidates_items(prs).contains(x),
    ensures
        0 <= i < prs.len(),
        status::candidate_items(prs[i]).contains(x),
    decreases prs.len(),
{
    let rest = prs.drop_last();
    lemma_in_sum(status::candidates_items(rest), status::candidate_items(prs.last()), x);
    if status::candidates_items(rest).contains(x) {
        let i = lemma_listed_own(rest, x);
        assert(rest[i] == prs[i]);
        i
    } else {
        prs.len() - 1
    }
}

proof fn lemma_listed_thesis(theses: Seq<ThesisState>, x: Seq<char>) -> (i: int)
    requires
        status::items_of(theses).contains(x),
    ensures
        0 <= i < theses.len(),
        status::thesis_items(theses[i]).contains(x),
    decreases theses.len(),
{
    let rest = theses.drop_last();
    lemma_in_sum(status::items_of(rest), status::thesis_items(theses.last()), x);
    if status::items_of(rest).contains(x) {
        let i = lemma_listed_thesis(rest, x);
        assert(rest[i] == theses[i]);
        i
    } else {
        theses.len() - 1
    }
}

proof fn lemma_asked(r: Vec<String>, start: Seq<char>, number: u64, end: Seq<char>)
    requires
        text::texts(r@).contains(start + text::decimal(number as nat) + end),
    ensures
        asked(r, start, number, end),
{
    let x = start + text::decimal(number as nat) + end;
    let k = choose|k: int| 0 <= k < text::texts(r@).len() && text::texts(r@)[k] == x;
    assert(r@[k]@ == x);
}

/// Where the maintainer is to be asked, each open thesis that waits for approval and each open
/// candidate without a decision that was not approved is listed, and so is each of them that was
/// turned down. Where everything is approved at once, nothing is listed.
pub proof fn what_waits_for_the_maintainer_is_listed(
    s: RepositoryState,
    auto_approve: bool,
    r: Vec<String>,
    i: int,
    j: int,
)
    requires
        call_ensures(status::maintainer_items, (&s, auto_approve), r),
        0 <= i < s.theses@.len(),
        s.theses@[i].issue.state@ == "OPEN"@,
    ensures
        auto_approve ==> r@.len() == 0,
        !auto_approve ==> ({
            let t = s.theses@[i];
            &&& t.maintainer_rejected ==> asked(r, "thesis #"@, t.issue.number, " rejected"@)
            &&& !t.maintainer_rejected && t.phase == ThesisPhase::Submitted ==> asked(
                r,
                "thesis #"@,
                t.issue.number,
                " awaiting /approve"@,
            )
            &&& 0 <= j < t.pull_requests@.len() && t.pull_requests@[j].pr.state@ == "OPEN"@
                && t.pull_requests@[j].decision is None ==> ({
                let p = t.pull_requests@[j];
                &&& p.maintainer_rejected ==> asked(r, "PR #"@, p.pr.number, " rejected"@)
                &&& !p.maintainer_rejected && !p.maintainer_approved ==> asked(
                    r,
                    "PR #"@,
                    p.pr.number,
                    " awaiting /approve"@,
                )
            })
        }),
{
    assert(text::texts(r@).len() == r@.len());
    if !auto_approve {
        let t = s.theses@[i];
        lemma_thesis_listed(s.theses@, i);
        let own = status::own_items(t);
        let theirs = status::candidates_items(t.pull_requests@);
        let n = text::decimal(t.issue.number as nat);
        if t.maintainer_rejected {
            assert(own[0] == "thesis #"@ + n + " rejected"@);
            lemma_in_sum(own, theirs, own[0]);
            assert(status::thesis_items(t).contains(own[0]));
            lemma_asked(r, "thesis #"@, t.issue.number, " rejected"@);
        } else if t.phase == ThesisPhase::Submitted {
            assert(own[0] == "thesis #"@ + n + " awaiting /approve"@);
            lemma_in_sum(own, theirs, own[0]);
            assert(status::thesis_items(t).contains(own[0]));
            lemma_asked(r, "thesis #"@, t.issue.number, " awaiting /approve"@);
        }
        if 0 <= j < t.pull_requests@.len() && t.pull_requests@[j].pr.state@ == "OPEN"@
            && t.pull_requests@[j].decision is None {
            let p = t.pull_requests@[j];
            lemma_own_listed(t.pull_requests@, j);
            let its = status::candidate_items(p);
            if its.len() > 0 {
                assert(its.contains(its[0]));
                lemma_in_sum(own, theirs, its[0]);
                assert(status::thesis_items(t).contains(its[0]));
                if p.maintainer_rejected {
                    lemma_asked(r, "PR #"@, p.pr.number, " rejected"@);
                } else {
                    lemma_asked(r, "PR #"@, p.pr.number, " awaiting /approve"@);
                }
            }
        }
    }
}

/// The maintainer is asked of nothing else than of open theses, and of their open candidates without
/// a decision.
pub proof fn nothing_else_waits_for_the_maintainer(
    s: RepositoryState,
    auto_approve: bool,
    r: Vec<String>,
    k: int,
)
    requires
        call_ensures(status::maintainer_items, (&s, auto_approve), r),
        0 <= k < r@.len(),
    ensures
        !auto_approve,
        exists|i: int|
            0 <= i < s.theses@.len() && (#[trigger] s.theses@[i]).issue.state@ == "OPEN"@ && ({
                let t = s.theses@[i];
                ||| t.maintainer_rejected && r@[k]@ == "thesis #"@ + text::decimal(
                    t.issue.number as nat,
                ) + " rejected"@
                ||| !t.maintainer_rejected && t.phase == ThesisPhase::Submitted && r@[k]@
                    == "thesis #"@ + text::decimal(t.issue.number as nat) + " awaiting /approve"@
                ||| exists|j: int|
                    0 <= j < t.pull_requests@.len() && (#[trigger] t.pull_requests@[j]).pr.state@
                        == "OPEN"@ && t.pull_requests@[j].decision is None && ({
                        let p = t.pull_requests@[j];
                        ||| p.maintainer_rejected && r@[k]@ == "PR #"@ + text::decimal(
                            p.pr.number as nat,
                        ) + " rejected"@
                        ||| !p.maintainer_rejected && !p.maintainer_approved && r@[k]@ == "PR #"@
                            + text::decimal(p.pr.number as nat) + " awaiting /approve"@
                    })
            }),
{
    assert(text::texts(r@).len() == r@.len());
    let x = r@[k]@;
    assert(text::texts(r@)[k] == x);
    assert(status::items_of(s.theses@).contains(x));
    let i = lemma_listed_thesis(s.theses@, x);
    let t = s.theses@[i];
    let own = status::own_items(t);
    let theirs = status::candidates_items(t.pull_requests@);
    lemma_in_sum(own, theirs, x);
    if own.contains(x) {
        assert(own[0] == x);
    } else {
        let j = lemma_listed_own(t.pull_requests@, x);
        assert(status::candidate_items(t.pull_requests@[j])[0] == x);
        assert(t.pull_requests@[j].pr.state@ == "OPEN"@);
    }
}

} // verus!
