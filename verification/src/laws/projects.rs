//! What holds of the state of a whole project.
use crate::comments::{Observation, Outcome, ReleaseReason};
use crate::config::ProtocolConfig;
use crate::github::{Issue, IssueComment, PullRequest};
use crate::laws::theses::{before, good_as};
use crate::metric;
use crate::metric::Metric;
use crate::sort;
use crate::sort::Ranked;
use crate::state;
use crate::state::{
    ActivityEvent, AttemptRecord, ClaimRecord, PullRequestState, RepositoryState, ThesisPhase,
    ThesisState,
};
use crate::text;
use crate::text_set;
use crate::time::Timestamp;
use vstd::prelude::*;

verus! {

/// The candidate at the place is the first one that was accepted.
pub open spec fn first_accepted(t: ThesisState, k: int) -> bool {
    &&& 0 <= k < t.pull_requests@.len()
    &&& t.pull_requests@[k].decision matches Some(d) && d.outcome == Outcome::Accepted
    &&& forall|j: int|
        0 <= j < k ==> !((#[trigger] t.pull_requests@[j]).decision matches Some(d) && d.outcome
            == Outcome::Accepted)
}

/// The attempt at the place is the first one on the branch of the first accepted candidate.
pub open spec fn is_accepted_attempt(t: ThesisState, i: int) -> bool {
    exists|k: int| #[trigger]
        first_accepted(t, k) && 0 <= i < t.attempts@.len() && t.attempts@[i].branch@
            == t.pull_requests@[k].pr.head_ref_name@ && forall|j: int|
            0 <= j < i ==> (#[trigger] t.attempts@[j]).branch@
                != t.pull_requests@[k].pr.head_ref_name@
}

proof fn lemma_accepted(t: ThesisState, from: int)
    requires
        0 <= from,
        forall|j: int|
            0 <= j < from && j < t.pull_requests@.len() ==> !((
            #[trigger] t.pull_requests@[j]).decision matches Some(d) && d.outcome
                == Outcome::Accepted),
    ensures
        match state::first_accepted(t.pull_requests@, from) {
            Some(k) => first_accepted(t, k),
            None => forall|j: int|
                0 <= j < t.pull_requests@.len() ==> !((
                #[trigger] t.pull_requests@[j]).decision matches Some(d) && d.outcome
                    == Outcome::Accepted),
        },
    decreases t.pull_requests@.len() - from,
{
    if from < t.pull_requests@.len() && !(t.pull_requests@[from].decision matches Some(d)
        && d.outcome == Outcome::Accepted) {
        lemma_accepted(t, from + 1);
    }
}

proof fn lemma_on_branch(attempts: Seq<AttemptRecord>, branch: Seq<char>, from: int)
    requires
        0 <= from,
        forall|j: int|
            0 <= j < from && j < attempts.len() ==> (#[trigger] attempts[j]).branch@ != branch,
    ensures
        match state::first_on_branch(attempts, branch, from) {
            Some(i) => 0 <= i < attempts.len() && attempts[i].branch@ == branch && forall|j: int|
                0 <= j < i ==> (#[trigger] attempts[j]).branch@ != branch,
            None => forall|j: int|
                0 <= j < attempts.len() ==> (#[trigger] attempts[j]).branch@ != branch,
        },
    decreases attempts.len() - from,
{
    if from < attempts.len() && attempts[from].branch@ != branch {
        lemma_on_branch(attempts, branch, from + 1);
    }
}

/// The accepted metric of a thesis is that of the attempt on the branch of its first accepted
/// candidate; there is none exactly where there is no such attempt.
pub proof fn the_accepted_metric_is_that_of_the_accepted_attempt(t: ThesisState, r: Option<Metric>)
    requires
        call_ensures(ThesisState::accepted_metric, (&t,), r),
    ensures
        r is Some <==> exists|i: int| is_accepted_attempt(t, i),
        forall|i: int| #[trigger] is_accepted_attempt(t, i) ==> r == Some(t.attempts@[i].metric),
{
    lemma_accepted_attempt(t);
}

proof fn lemma_accepted_attempt(t: ThesisState)
    ensures
        t.accepted() is Some <==> exists|i: int| is_accepted_attempt(t, i),
        forall|i: int| #[trigger]
            is_accepted_attempt(t, i) ==> t.accepted() == Some(t.attempts@[i].metric),
{
    lemma_accepted(t, 0);
    let found = state::first_accepted(t.pull_requests@, 0);
    assert forall|k: int| #[trigger] first_accepted(t, k) implies found == Some(k) by {
        assert(t.pull_requests@[k].decision is Some);
        let f = found->Some_0;
        assert(first_accepted(t, f));
        if f < k {
            assert(!(t.pull_requests@[f].decision matches Some(d) && d.outcome
                == Outcome::Accepted));
        } else if k < f {
            assert(!(t.pull_requests@[k].decision matches Some(d) && d.outcome
                == Outcome::Accepted));
        }
    }
    if found is Some {
        let k = found->Some_0;
        let branch = t.pull_requests@[k].pr.head_ref_name@;
        lemma_on_branch(t.attempts@, branch, 0);
        let at = state::first_on_branch(t.attempts@, branch, 0);
        if at is Some {
            assert(first_accepted(t, k));
            assert(is_accepted_attempt(t, at->Some_0));
        }
        assert forall|i: int| #[trigger] is_accepted_attempt(t, i) implies at == Some(i) by {
            let f = at->Some_0;
            assert(t.attempts@[i].branch@ == branch);
            if f < i {
                assert(t.attempts@[f].branch@ != branch);
            } else if i < f {
                assert(t.attempts@[i].branch@ != branch);
            }
        }
    }
}

proof fn lemma_accepted_metrics(theses: Seq<ThesisState>)
    ensures
        forall|m: Metric|
            #[trigger] state::accepted_metrics(theses).contains(m) <==> exists|i: int|
                0 <= i < theses.len() && (#[trigger] theses[i]).accepted() == Some(m),
    decreases theses.len(),
{
    if theses.len() > 0 {
        let rest = theses.drop_last();
        let n = theses.len() - 1;
        lemma_accepted_metrics(rest);
        let a = state::accepted_metrics(rest);
        let b = state::accepted_metrics(theses);
        assert forall|m: Metric| #[trigger] b.contains(m) <==> exists|i: int|
            0 <= i < theses.len() && (#[trigger] theses[i]).accepted() == Some(m) by {
            if b.contains(m) {
                let k = choose|k: int| 0 <= k < b.len() && b[k] == m;
                if k < a.len() {
                    assert(a[k] == m);
                    assert(a.contains(m));
                    let i = choose|i: int|
                        0 <= i < rest.len() && (#[trigger] rest[i]).accepted() == Some(m);
                    assert(theses[i].accepted() == Some(m));
                } else {
                    assert(theses[n].accepted() == Some(m));
                }
            }
            if exists|i: int| 0 <= i < theses.len() && (#[trigger] theses[i]).accepted() == Some(m) {
                let i = choose|i: int|
                    0 <= i < theses.len() && (#[trigger] theses[i]).accepted() == Some(m);
                if i < n {
                    assert(rest[i].accepted() == Some(m));
                    assert(a.contains(m));
                    let k = choose|k: int| 0 <= k < a.len() && a[k] == m;
                    assert(b[k] == m);
                } else {
                    assert(b[a.len() as int] == m);
                }
            }
        }
    }
}

/// The best accepted metric of a project is that of an accepted attempt, and at least as good as the
/// number of every accepted attempt; there is none exactly where nothing was accepted.
pub proof fn the_best_accepted_metric_of_a_project(
    s: RepositoryState,
    prs: Seq<PullRequestState>,
    theses: Seq<ThesisState>,
    config: ProtocolConfig,
)
    requires
        s.gathers(prs, theses, config),
    ensures
        s.current_best_accepted_metric is Some <==> exists|i: int, k: int|
            0 <= i < s.theses@.len() && #[trigger] is_accepted_attempt(s.theses@[i], k),
        s.current_best_accepted_metric matches Some(m) ==> exists|i: int, k: int|
            0 <= i < s.theses@.len() && #[trigger] is_accepted_attempt(s.theses@[i], k)
                && s.theses@[i].attempts@[k].metric == m,
        s.current_best_accepted_metric matches Some(m) ==> forall|i: int, k: int|
            0 <= i < s.theses@.len() && #[trigger] is_accepted_attempt(s.theses@[i], k)
                && !metric::not_a_number(s.theses@[i].attempts@[k].metric.bits) ==> good_as(
                m.bits,
                s.theses@[i].attempts@[k].metric.bits,
                config.metric_direction,
            ),
{
    let ms = state::accepted_metrics(s.theses@);
    lemma_accepted_metrics(s.theses@);
    assert forall|i: int, k: int|
        0 <= i < s.theses@.len() && #[trigger] is_accepted_attempt(s.theses@[i], k) implies ms.contains(
        s.theses@[i].attempts@[k].metric,
    ) by {
        lemma_accepted_attempt(s.theses@[i]);
        assert(s.theses@[i].accepted() == Some(s.theses@[i].attempts@[k].metric));
    }
    if ms.len() > 0 {
        state::best_is_as_good_as_all(ms, config.metric_direction);
        let m = s.current_best_accepted_metric->Some_0;
        assert(ms.contains(m));
        let i = choose|i: int|
            0 <= i < s.theses@.len() && (#[trigger] s.theses@[i]).accepted() == Some(m);
        lemma_accepted_attempt(s.theses@[i]);
        let k = choose|k: int| is_accepted_attempt(s.theses@[i], k);
        assert(is_accepted_attempt(s.theses@[i], k));
        assert forall|i: int, k: int|
            0 <= i < s.theses@.len() && #[trigger] is_accepted_attempt(s.theses@[i], k)
                && !metric::not_a_number(s.theses@[i].attempts@[k].metric.bits) implies good_as(
            m.bits,
            s.theses@[i].attempts@[k].metric.bits,
            config.metric_direction,
        ) by {
            let x = s.theses@[i].attempts@[k].metric;
            let j = choose|j: int| 0 <= j < ms.len() && ms[j] == x;
            assert(state::as_good(m, ms[j], config.metric_direction));
        }
    }
}

/// The thesis waits in the queue: it is open and approved, or, where theses are not approved by
/// themselves, it is open and waits for the maintainer.
pub open spec fn in_queue(t: ThesisState, config: ProtocolConfig) -> bool {
    t.issue.state@ == "OPEN"@ && (t.phase == ThesisPhase::Approved || (!config.auto_approve
        && t.phase == ThesisPhase::Submitted && !t.maintainer_rejected))
}

proof fn lemma_queue(theses: Seq<ThesisState>, config: ProtocolConfig)
    ensures
        state::queue_length(theses, config.auto_approve) == theses.filter(
            |t: ThesisState| in_queue(t, config),
        ).len(),
    decreases theses.len(),
{
    reveal(Seq::filter);
    if theses.len() > 0 {
        lemma_queue(theses.drop_last(), config);
    }
}

/// The queue of a project holds as many theses as wait in it.
pub proof fn the_queue_counts_what_waits(
    s: RepositoryState,
    prs: Seq<PullRequestState>,
    theses: Seq<ThesisState>,
    config: ProtocolConfig,
)
    requires
        s.gathers(prs, theses, config),
    ensures
        s.queue_depth == s.theses@.filter(|t: ThesisState| in_queue(t, config)).len(),
        s.pull_request_count == prs.len(),
{
    lemma_queue(s.theses@, config);
}

/// The theses of a project are those that were derived, by number.
pub proof fn theses_stand_by_number(
    s: RepositoryState,
    prs: Seq<PullRequestState>,
    theses: Seq<ThesisState>,
    config: ProtocolConfig,
)
    requires
        s.gathers(prs, theses, config),
    ensures
        s.theses@.len() == theses.len(),
        s.theses@.to_multiset() == theses.to_multiset(),
        forall|i: int, j: int|
            0 <= i < j < s.theses@.len() ==> (#[trigger] s.theses@[i]).issue.number <= (
            #[trigger] s.theses@[j]).issue.number,
{
    sort::sorted_is_ordered_and_complete(theses);
    assert forall|i: int, j: int| 0 <= i < j < s.theses@.len() implies (
    #[trigger] s.theses@[i]).issue.number <= (#[trigger] s.theses@[j]).issue.number by {
        assert(!s.theses@[i].after(s.theses@[j]));
    }
}

/// A state that was derived gathers candidates and theses, one for each that was fetched, each of
/// its own comments: those that were fetched under its number.
pub proof fn everything_that_was_fetched_is_gathered(
    s: RepositoryState,
    issues: Seq<Issue>,
    prs: Seq<PullRequest>,
    issue_comments: Map<u64, Vec<IssueComment>>,
    pr_comments: Map<u64, Vec<IssueComment>>,
    config: ProtocolConfig,
    now: Timestamp,
) -> (out: (Seq<PullRequestState>, Seq<ThesisState>))
    requires
        s.derived(issues, prs, issue_comments, pr_comments, config, now),
    ensures
        s.gathers(out.0, out.1, config),
        out.0.len() == prs.len(),
        out.1.len() == issues.len(),
        forall|i: int|
            0 <= i < prs.len() && pr_comments.contains_key(prs[i].number) && (forall|j: int|
                0 <= j < i ==> (#[trigger] prs[j]).number != prs[i].number) ==> (
            #[trigger] out.0[i]).derived(prs[i], pr_comments[prs[i].number]@, config),
        forall|i: int|
            0 <= i < issues.len() && issue_comments.contains_key(issues[i].number) && (forall|
                j: int,
            |
                0 <= j < i ==> (#[trigger] issues[j]).number != issues[i].number) ==> (
            #[trigger] out.1[i]).derived(
                issues[i],
                issue_comments[issues[i].number]@,
                state::pull_request_views(out.0),
                config,
                now,
            ),
{
    let (candidates, theses) = choose|candidates: Seq<PullRequestState>, theses: Seq<ThesisState>|
        {
            &&& #[trigger] s.gathers(candidates, theses, config)
            &&& candidates.len() == prs.len()
            &&& theses.len() == issues.len()
            &&& forall|i: int|
                0 <= i < prs.len() ==> (#[trigger] candidates[i]).derived(
                    prs[i],
                    state::fetched(state::pr_numbers(prs), i, pr_comments),
                    config,
                )
            &&& forall|i: int|
                0 <= i < issues.len() ==> (#[trigger] theses[i]).derived(
                    issues[i],
                    state::fetched(state::issue_numbers(issues), i, issue_comments),
                    state::pull_request_views(candidates),
                    config,
                    now,
                )
        };
    assert forall|i: int|
        0 <= i < prs.len() && pr_comments.contains_key(prs[i].number) && (forall|j: int|
            0 <= j < i ==> (#[trigger] prs[j]).number != prs[i].number) implies (
    #[trigger] candidates[i]).derived(prs[i], pr_comments[prs[i].number]@, config) by {
        let numbers = state::pr_numbers(prs);
        assert(numbers[i] == prs[i].number);
        if numbers.take(i).contains(numbers[i]) {
            let k = choose|k: int| 0 <= k < i && numbers.take(i)[k] == numbers[i];
            assert(prs[k].number == prs[i].number);
        }
    }
    assert forall|i: int|
        0 <= i < issues.len() && issue_comments.contains_key(issues[i].number) && (forall|j: int|
            0 <= j < i ==> (#[trigger] issues[j]).number != issues[i].number) implies (
    #[trigger] theses[i]).derived(
        issues[i],
        issue_comments[issues[i].number]@,
        state::pull_request_views(candidates),
        config,
        now,
    ) by {
        let numbers = state::issue_numbers(issues);
        assert(numbers[i] == issues[i].number);
        if numbers.take(i).contains(numbers[i]) {
            let k = choose|k: int| 0 <= k < i && numbers.take(i)[k] == numbers[i];
            assert(issues[k].number == issues[i].number);
        }
    }
    (candidates, theses)
}

/// The node holds one of the theses.
pub open spec fn holds_one(theses: Seq<ThesisState>, node: Seq<char>) -> bool {
    exists|i: int, k: int|
        #![trigger theses[i].active_claims@[k]]
        0 <= i < theses.len() && 0 <= k < theses[i].active_claims@.len()
            && theses[i].active_claims@[k].node@ == node
}

proof fn lemma_nodes(theses: Seq<ThesisState>, node: Seq<char>)
    ensures
        state::claiming_nodes(theses).contains(node) <==> holds_one(theses, node),
    decreases theses.len(),
{
    if theses.len() > 0 {
        let rest = theses.drop_last();
        let n = theses.len() - 1;
        lemma_nodes(rest, node);
        let a = state::claiming_nodes(rest);
        let b = theses.last().active_claims@.map_values(|c: ClaimRecord| c.node@);
        let all = state::claiming_nodes(theses);
        if all.contains(node) {
            let k = choose|k: int| 0 <= k < all.len() && all[k] == node;
            if k < a.len() {
                assert(a[k] == node);
                assert(a.contains(node));
                let (i, m) = choose|i: int, m: int|
                    #![trigger rest[i].active_claims@[m]]
                    0 <= i < rest.len() && 0 <= m < rest[i].active_claims@.len()
                        && rest[i].active_claims@[m].node@ == node;
                assert(theses[i].active_claims@[m].node@ == node);
            } else {
                assert(b[k - a.len()] == node);
                assert(theses[n].active_claims@[k - a.len()].node@ == node);
            }
        }
        if holds_one(theses, node) {
            let (i, m) = choose|i: int, m: int|
                #![trigger theses[i].active_claims@[m]]
                0 <= i < theses.len() && 0 <= m < theses[i].active_claims@.len()
                    && theses[i].active_claims@[m].node@ == node;
            if i < n {
                assert(rest[i].active_claims@[m].node@ == node);
                assert(a.contains(node));
                let k = choose|k: int| 0 <= k < a.len() && a[k] == node;
                assert(all[k] == node);
            } else {
                assert(b[m] == node);
                assert(all[a.len() + m] == node);
            }
        }
    }
}

/// The active nodes of a project are exactly those that hold a thesis, each once.
pub proof fn active_nodes_hold_theses(
    s: RepositoryState,
    prs: Seq<PullRequestState>,
    theses: Seq<ThesisState>,
    config: ProtocolConfig,
    node: Seq<char>,
)
    requires
        s.gathers(prs, theses, config),
    ensures
        text::texts(s.active_nodes@).contains(node) <==> holds_one(s.theses@, node),
        text_set::ascending(text::texts(s.active_nodes@)),
{
    let all = state::claiming_nodes(s.theses@);
    text_set::set_is_ordered_and_complete(all);
    lemma_nodes(s.theses@, node);
    assert(text_set::set_of(all).contains(node) <==> all.contains(node));
}

proof fn lemma_invalidated(theses: Seq<ThesisState>, branch: Seq<char>)
    ensures
        state::invalidated_branches(theses).contains(branch) <==> exists|i: int|
            0 <= i < theses.len() && text::texts(
                (#[trigger] theses[i]).invalidated_attempt_branches@,
            ).contains(branch),
    decreases theses.len(),
{
    if theses.len() > 0 {
        let rest = theses.drop_last();
        let n = theses.len() - 1;
        lemma_invalidated(rest, branch);
        let a = state::invalidated_branches(rest);
        let b = text::texts(theses.last().invalidated_attempt_branches@);
        let all = state::invalidated_branches(theses);
        if all.contains(branch) {
            let k = choose|k: int| 0 <= k < all.len() && all[k] == branch;
            if k < a.len() {
                assert(a[k] == branch);
                assert(a.contains(branch));
                let i = choose|i: int|
                    0 <= i < rest.len() && text::texts(
                        (#[trigger] rest[i]).invalidated_attempt_branches@,
                    ).contains(branch);
                assert(text::texts(theses[i].invalidated_attempt_branches@).contains(branch));
            } else {
                assert(b[k - a.len()] == branch);
                assert(text::texts(theses[n].invalidated_attempt_branches@).contains(branch));
            }
        }
        if exists|i: int|
            0 <= i < theses.len() && text::texts(
                (#[trigger] theses[i]).invalidated_attempt_branches@,
            ).contains(branch) {
            let i = choose|i: int|
                0 <= i < theses.len() && text::texts(
                    (#[trigger] theses[i]).invalidated_attempt_branches@,
                ).contains(branch);
            if i < n {
                assert(text::texts(rest[i].invalidated_attempt_branches@).contains(branch));
                assert(a.contains(branch));
                let k = choose|k: int| 0 <= k < a.len() && a[k] == branch;
                assert(all[k] == branch);
            } else {
                let k = choose|k: int| 0 <= k < b.len() && b[k] == branch;
                assert(all[a.len() + k] == branch);
            }
        }
    }
}

/// The invalidated branches of a project are exactly those of its theses.
pub proof fn invalidated_branches_are_those_of_theses(
    s: RepositoryState,
    prs: Seq<PullRequestState>,
    theses: Seq<ThesisState>,
    config: ProtocolConfig,
    branch: Seq<char>,
)
    requires
        s.gathers(prs, theses, config),
    ensures
        text::texts(s.invalidated_attempt_branches@).contains(branch) <==> exists|i: int|
            0 <= i < s.theses@.len() && text::texts(
                (#[trigger] s.theses@[i]).invalidated_attempt_branches@,
            ).contains(branch),
{
    let all = state::invalidated_branches(s.theses@);
    text_set::set_is_ordered_and_complete(all);
    lemma_invalidated(s.theses@, branch);
    assert(text_set::set_of(all).contains(branch) <==> all.contains(branch));
}

proof fn lemma_candidate_findings(prs: Seq<PullRequestState>)
    ensures
        state::candidate_findings(prs) == prs.map_values(
            |p: PullRequestState| p.findings@,
        ).flatten(),
    decreases prs.len(),
{
    let f = |p: PullRequestState| p.findings@;
    if prs.len() > 0 {
        let rest = prs.drop_last();
        lemma_candidate_findings(rest);
        assert(prs.map_values(f) =~= rest.map_values(f).push(f(prs.last())));
        rest.map_values(f).lemma_flatten_push(f(prs.last()));
    } else {
        assert(prs.map_values(f) =~= Seq::empty());
    }
}

proof fn lemma_thesis_findings(theses: Seq<ThesisState>)
    ensures
        state::thesis_findings(theses) == theses.map_values(
            |t: ThesisState| t.findings@,
        ).flatten(),
    decreases theses.len(),
{
    let f = |t: ThesisState| t.findings@;
    if theses.len() > 0 {
        let rest = theses.drop_last();
        lemma_thesis_findings(rest);
        assert(theses.map_values(f) =~= rest.map_values(f).push(f(theses.last())));
        rest.map_values(f).lemma_flatten_push(f(theses.last()));
    } else {
        assert(theses.map_values(f) =~= Seq::empty());
    }
}

/// The findings of a project are all those on its candidates and theses, and no others; the later
/// one comes first, and one without a time last.
pub proof fn findings_are_those_of_candidates_and_theses(
    s: RepositoryState,
    prs: Seq<PullRequestState>,
    theses: Seq<ThesisState>,
    config: ProtocolConfig,
)
    requires
        s.gathers(prs, theses, config),
    ensures
        s.audit_findings@.to_multiset() == (prs.map_values(
            |p: PullRequestState| p.findings@,
        ).flatten() + s.theses@.map_values(|t: ThesisState| t.findings@).flatten()).to_multiset(),
        forall|i: int, j: int|
            0 <= i < j < s.audit_findings@.len() ==> match (
                (#[trigger] s.audit_findings@[i]).created_at,
                (#[trigger] s.audit_findings@[j]).created_at,
            ) {
                (Some(a), Some(b)) => !before(a, b),
                (None, Some(_)) => false,
                _ => true,
            },
{
    lemma_candidate_findings(prs);
    lemma_thesis_findings(s.theses@);
    let all = state::candidate_findings(prs) + state::thesis_findings(s.theses@);
    sort::sorted_is_ordered_and_complete(all);
    assert forall|i: int, j: int| 0 <= i < j < s.audit_findings@.len() implies match (
        (#[trigger] s.audit_findings@[i]).created_at,
        (#[trigger] s.audit_findings@[j]).created_at,
    ) {
        (Some(a), Some(b)) => !before(a, b),
        (None, Some(_)) => false,
        _ => true,
    } by {
        assert(!s.audit_findings@[i].after(s.audit_findings@[j]));
    }
}

/// The events that a project shows are the latest ones, the latest first, at most fifty.
pub proof fn the_latest_events_are_shown(
    s: RepositoryState,
    prs: Seq<PullRequestState>,
    theses: Seq<ThesisState>,
    config: ProtocolConfig,
) -> (events: Seq<ActivityEvent>)
    requires
        s.gathers(prs, theses, config),
    ensures
        state::event_views(events) == state::all_events(s.theses@),
        s.recent_events@.len() == (if events.len() <= 50 {
            events.len()
        } else {
            50
        }),
        forall|i: int, j: int|
            0 <= i < j < s.recent_events@.len() ==> !before(
                (#[trigger] s.recent_events@[i]).created_at,
                (#[trigger] s.recent_events@[j]).created_at,
            ),
        forall|k: int, i: int|
            0 <= k < events.len() && 0 <= i < s.recent_events@.len() && !s.recent_events@.contains(
                #[trigger] events[k],
            ) ==> !before((#[trigger] s.recent_events@[i]).created_at, events[k].created_at),
        forall|i: int|
            0 <= i < s.recent_events@.len() ==> events.contains(#[trigger] s.recent_events@[i]),
{
    broadcast use vstd::seq_lib::group_to_multiset_ensures;

    let events = choose|events: Seq<ActivityEvent>|
        state::event_views(events) == state::all_events(s.theses@) && s.recent_events@
            == state::latest_events(#[trigger] sort::sorted(events));
    let ordered = sort::sorted(events);
    sort::sorted_is_ordered_and_complete(events);
    assert forall|i: int, j: int| 0 <= i < j < s.recent_events@.len() implies !before(
        (#[trigger] s.recent_events@[i]).created_at,
        (#[trigger] s.recent_events@[j]).created_at,
    ) by {
        assert(!ordered[i].after(ordered[j]));
    }
    assert forall|k: int, i: int|
        0 <= k < events.len() && 0 <= i < s.recent_events@.len() && !s.recent_events@.contains(
            #[trigger] events[k],
        ) implies !before((#[trigger] s.recent_events@[i]).created_at, events[k].created_at) by {
        assert(events.contains(events[k]));
        assert(events.to_multiset().count(events[k]) > 0);
        assert(ordered.to_multiset().count(events[k]) > 0);
        assert(ordered.contains(events[k]));
        let m = choose|m: int| 0 <= m < ordered.len() && ordered[m] == events[k];
        if m < s.recent_events@.len() {
            assert(s.recent_events@[m] == events[k]);
        }
        assert(!ordered[i].after(ordered[m]));
    }
    assert forall|i: int| 0 <= i < s.recent_events@.len() implies events.contains(
        #[trigger] s.recent_events@[i],
    ) by {
        let x = ordered[i];
        assert(ordered.contains(x));
        assert(ordered.to_multiset().count(x) > 0);
        assert(events.to_multiset().count(x) > 0);
    }
    events
}

proof fn lemma_decision_events(prs: Seq<PullRequestState>)
    ensures
        ({
            let e = ThesisState::decision_events(prs);
            let decided = prs.filter(|p: PullRequestState| p.decision is Some);
            &&& e.len() == decided.len()
            &&& forall|k: int|
                0 <= k < e.len() ==> (#[trigger] e[k]).created_at
                    == decided[k].decision->Some_0.created_at && e[k].source == "PR #"@
                    + text::decimal(decided[k].pr.number as nat)
        }),
    decreases prs.len(),
{
    reveal(Seq::filter);
    if prs.len() > 0 {
        lemma_decision_events(prs.drop_last());
    }
}

/// A thesis has an event for each of its claims, releases and attempts and for each decided
/// candidate, at its time; the source is the issue, or the candidate where it is decided.
pub proof fn what_has_happened_at_a_thesis(t: ThesisState, r: Vec<ActivityEvent>)
    requires
        call_ensures(ThesisState::activity_events, (&t,), r),
    ensures
        ({
            let decided = t.pull_requests@.filter(|p: PullRequestState| p.decision is Some);
            let a = t.active_claims@.len() as int;
            let b = a + t.releases@.len();
            let c = b + t.attempts@.len();
            let source = "issue #"@ + text::decimal(t.issue.number as nat);
            &&& r@.len() == c + decided.len()
            &&& forall|i: int|
                0 <= i < a ==> (#[trigger] r@[i]).created_at == t.active_claims@[i].created_at
                    && r@[i].source@ == source && r@[i].summary@ == "Claimed by "@
                    + t.active_claims@[i].node@
            &&& forall|i: int|
                a <= i < b ==> (#[trigger] r@[i]).created_at == t.releases@[i - a].created_at
                    && r@[i].source@ == source
            &&& forall|i: int|
                b <= i < c ==> (#[trigger] r@[i]).created_at == t.attempts@[i - b].created_at
                    && r@[i].source@ == source && r@[i].summary@ == "Attempt "@
                    + t.attempts@[i - b].branch@ + " -> "@ + t.attempts@[i - b].metric.text@
            &&& forall|i: int|
                c <= i < r@.len() ==> (#[trigger] r@[i]).created_at == decided[i
                    - c].decision->Some_0.created_at && r@[i].source@ == "PR #"@ + text::decimal(
                    decided[i - c].pr.number as nat,
                )
        }),
{
    lemma_decision_events(t.pull_requests@);
    let v = state::event_views(r@);
    assert(v.len() == r@.len());
    assert(forall|i: int| 0 <= i < r@.len() ==> v[i] == (#[trigger] r@[i])@);
}

/// A node holds a thesis exactly where one of the claims on it is the node's.
pub proof fn who_holds_a_thesis(t: ThesisState, node: &str, r: bool)
    requires
        call_ensures(ThesisState::is_claimed_by, (&t, node), r),
    ensures
        r <==> exists|i: int|
            0 <= i < t.active_claims@.len() && (#[trigger] t.active_claims@[i]).node@ == node@,
{
}

/// What is said of the maintainer's word on a candidate: a rejection stands before an approval, and
/// nothing is waited for where things are approved by themselves.
pub proof fn what_is_said_of_the_maintainer(p: PullRequestState, auto: bool, r: &'static str)
    requires
        call_ensures(PullRequestState::maintainer_status, (&p, auto), r),
    ensures
        auto ==> r@ == "auto"@,
        !auto && p.maintainer_rejected ==> r@ == "rejected"@,
        !auto && !p.maintainer_rejected && p.maintainer_approved ==> r@ == "approved"@,
        !auto && !p.maintainer_rejected && !p.maintainer_approved ==> r@ == "waiting"@,
{
}

/// Each observation, reason and outcome has its word.
pub proof fn each_has_its_word(
    o: Observation,
    ot: String,
    x: ReleaseReason,
    xt: String,
    d: Outcome,
    dt: String,
)
    requires
        call_ensures(Observation::text, (&o,), ot),
        call_ensures(ReleaseReason::text, (&x,), xt),
        call_ensures(Outcome::text, (&d,), dt),
    ensures
        ot@ == (match o {
            Observation::Improved => "improved"@,
            Observation::NoImprovement => "no_improvement"@,
            Observation::Crashed => "crashed"@,
            Observation::InfraFailure => "infra_failure"@,
        }),
        xt@ == (match x {
            ReleaseReason::NoImprovement => "no_improvement"@,
            ReleaseReason::Timeout => "timeout"@,
            ReleaseReason::InfraFailure => "infra_failure"@,
        }),
        dt@ == (match d {
            Outcome::Accepted => "accepted"@,
            Outcome::NonImprovement => "non_improvement"@,
            Outcome::Disagreement => "disagreement"@,
            Outcome::Stale => "stale"@,
            Outcome::PolicyRejection => "policy_rejection"@,
            Outcome::InfraFailure => "infra_failure"@,
        }),
{
}

/// Each phase has its word; that of a resolved thesis is the word of the outcome.
pub proof fn each_phase_has_its_word(t: ThesisState, r: String, d: String)
    requires
        call_ensures(ThesisState::phase_label, (&t,), r),
        t.phase matches ThesisPhase::Resolved { outcome } ==> call_ensures(
            Outcome::text,
            (&outcome,),
            d,
        ),
    ensures
        r@ == (match t.phase {
            ThesisPhase::Submitted => "submitted"@,
            ThesisPhase::Approved => "approved"@,
            ThesisPhase::Exhausted => "exhausted"@,
            ThesisPhase::Claimed => "claimed"@,
            ThesisPhase::CandidateSubmitted => "candidate_submitted"@,
            ThesisPhase::InReview => "in_review"@,
            ThesisPhase::Resolved { .. } => d@,
            ThesisPhase::Rejected => "rejected"@,
        }),
{
}

} // verus!
