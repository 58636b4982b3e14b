//! What holds of every decision on a candidate.
use crate::commands::decide;
use crate::commands::decide::{
    Decision, DecisionAction, DecisionEvent, MaintainerStep, Settlement,
};
use crate::commands::duties;
use crate::commands::policy_check;
use crate::commands::policy_check::PolicyStep;
use crate::comments::{Observation, Outcome, ProtocolComment, ReleaseReason};
use crate::config::ProtocolConfig;
use crate::laws::theses::{before, good_as};
use crate::metric;
use crate::metric::Metric;
use crate::state;
use crate::state::{PullRequestState, ReviewRecord, ThesisState};
use crate::text;
use crate::time::Timestamp;
use vstd::prelude::*;

verus! {

/// The attempt at the place is the first one on the branch.
pub open spec fn first_on_branch(t: ThesisState, branch: Seq<char>, i: int) -> bool {
    &&& 0 <= i < t.attempts@.len()
    &&& t.attempts@[i].branch@ == branch
    &&& forall|j: int| 0 <= j < i ==> (#[trigger] t.attempts@[j]).branch@ != branch
}

proof fn lemma_first(t: ThesisState, branch: Seq<char>, from: int, i: int)
    requires
        first_on_branch(t, branch, i),
        0 <= from <= i,
    ensures
        decide::attempt_at(t.attempts@, branch, from) == Some(i),
    decreases i - from,
{
    if from < i {
        assert(t.attempts@[from].branch@ != branch);
        lemma_first(t, branch, from + 1, i);
    }
}

proof fn lemma_none(t: ThesisState, branch: Seq<char>, from: int)
    requires
        forall|j: int| 0 <= j < t.attempts@.len() ==> (#[trigger] t.attempts@[j]).branch@ != branch,
        0 <= from,
    ensures
        decide::attempt_at(t.attempts@, branch, from) is None,
    decreases t.attempts@.len() - from,
{
    if from < t.attempts@.len() {
        assert(t.attempts@[from].branch@ != branch);
        lemma_none(t, branch, from + 1);
    }
}

/// Without reviews, a candidate whose attempt has a baseline and beats it is accepted exactly where
/// nothing was accepted yet, or its metric and the best accepted one are numbers and its own is at
/// least as good: not less where higher is better, not more where lower is better. Any other
/// candidate with an attempt is no improvement.
pub proof fn accepted_alone_is_as_good_as_the_best(
    config: ProtocolConfig,
    thesis: ThesisState,
    pr: PullRequestState,
    best: Option<Metric>,
    beats: bool,
    r: Result<Outcome, String>,
    i: int,
)
    requires
        call_ensures(
            decide::decide_without_peer_review,
            (&config, &thesis, &pr, &best, beats),
            r,
        ),
        config.metric_tolerance is Some,
        first_on_branch(thesis, pr.pr.head_ref_name@, i),
    ensures
        r is Ok,
        r->Ok_0 == Outcome::Accepted || r->Ok_0 == Outcome::NonImprovement,
        ({
            let a = thesis.attempts@[i];
            r->Ok_0 == Outcome::Accepted <==> a.baseline_metric is Some && beats && (best is None
                || (!metric::not_a_number(best->Some_0.bits) && good_as(
                a.metric.bits,
                best->Some_0.bits,
                config.metric_direction,
            )))
        }),
        best is Some ==> (r->Ok_0 == Outcome::Accepted ==> state::as_good(
            thesis.attempts@[i].metric,
            best->Some_0,
            config.metric_direction,
        )),
{
    lemma_first(thesis, pr.pr.head_ref_name@, 0, i);
}

/// Without a tolerance, and without an attempt on its branch, a candidate is not decided.
pub proof fn nothing_is_decided_without_an_attempt(
    config: ProtocolConfig,
    thesis: ThesisState,
    pr: PullRequestState,
    best: Option<Metric>,
    beats: bool,
    r: Result<Outcome, String>,
)
    requires
        call_ensures(
            decide::decide_without_peer_review,
            (&config, &thesis, &pr, &best, beats),
            r,
        ),
        config.metric_tolerance is None || forall|j: int|
            0 <= j < thesis.attempts@.len() ==> (#[trigger] thesis.attempts@[j]).branch@
                != pr.pr.head_ref_name@,
    ensures
        r is Err,
{
    if config.metric_tolerance is Some {
        lemma_none(thesis, pr.pr.head_ref_name@, 0);
    }
}

/// What is accepted without reviews becomes the best: where `all` are the metrics that were accepted
/// before, the metric of the accepted attempt is at least as good as each number among them, and
/// the best of all of them is afterwards no worse than it was before.
pub proof fn an_accepted_candidate_never_makes_the_best_worse(
    config: ProtocolConfig,
    thesis: ThesisState,
    pr: PullRequestState,
    all: Seq<Metric>,
    beats: bool,
    r: Result<Outcome, String>,
    i: int,
)
    requires
        call_ensures(
            decide::decide_without_peer_review,
            (&config, &thesis, &pr, &state::best(all, config.metric_direction), beats),
            r,
        ),
        first_on_branch(thesis, pr.pr.head_ref_name@, i),
        r matches Ok(o) && o == Outcome::Accepted,
    ensures
        ({
            let m = thesis.attempts@[i].metric;
            let direction = config.metric_direction;
            &&& forall|k: int|
                0 <= k < all.len() && !metric::not_a_number((#[trigger] all[k]).bits) ==> good_as(
                    m.bits,
                    all[k].bits,
                    direction,
                )
            &&& state::best(all.push(m), direction) matches Some(b) && (all.len() > 0 ==> good_as(
                b.bits,
                state::best(all, direction)->Some_0.bits,
                direction,
            ) && good_as(m.bits, b.bits, direction))
        }),
{
    let m = thesis.attempts@[i].metric;
    let direction = config.metric_direction;
    lemma_first(thesis, pr.pr.head_ref_name@, 0, i);
    let grown = all.push(m);
    assert(grown.drop_last() =~= all);
    if all.len() > 0 {
        state::best_is_as_good_as_all(all, direction);
        state::best_is_as_good_as_all(grown, direction);
        let b = state::best(all, direction)->Some_0;
        let k = choose|k: int| 0 <= k < all.len() && all[k] == b;
        assert(grown[k] == b);
        assert(grown[all.len() as int] == m);
    }
}

proof fn lemma_void(reviews: Seq<ReviewRecord>)
    ensures
        decide::void_reviews(reviews) == reviews.filter(
            |r: ReviewRecord|
                r.observation == Observation::Crashed || r.observation
                    == Observation::InfraFailure,
        ).len(),
    decreases reviews.len(),
{
    reveal(Seq::filter);
    if reviews.len() > 0 {
        lemma_void(reviews.drop_last());
    }
}

proof fn lemma_says(reviews: Seq<ReviewRecord>)
    ensures
        (forall|i: int|
            0 <= i < reviews.len() ==> !decide::is_void((#[trigger] reviews[i]).observation)) ==>
            decide::void_reviews(reviews) == 0,
    decreases reviews.len(),
{
    if reviews.len() > 0 {
        let rest = reviews.drop_last();
        lemma_says(rest);
        if forall|i: int|
            0 <= i < reviews.len() ==> !decide::is_void((#[trigger] reviews[i]).observation) {
            assert forall|i: int| 0 <= i < rest.len() implies !decide::is_void(
                (#[trigger] rest[i]).observation,
            ) by {
                assert(rest[i] == reviews[i]);
            }
            assert(!decide::is_void(reviews[reviews.len() - 1].observation));
        }
    }
}

/// Two reviews were made in different environments.
pub open spec fn environments_differ(reviews: Seq<ReviewRecord>) -> bool {
    exists|i: int, j: int|
        #![trigger reviews[i], reviews[j]]
        0 <= i < reviews.len() && 0 <= j < reviews.len() && (match (
            reviews[i].env_sha,
            reviews[j].env_sha,
        ) {
            (None, None) => false,
            (Some(a), Some(b)) => a@ != b@,
            _ => true,
        })
}

/// A candidate with reviews: it is stale exactly where one of them was made on another commit than
/// the main head; accepted exactly where there are reviews and all of them are on the main head, in
/// one environment, saw an improvement and agree; no improvement exactly where the same holds of
/// no improvement. Of the others, those of different environments are in disagreement, and those
/// of which at least half say nothing failed for infrastructure. With fewer reviews than required
/// nothing is decided.
pub proof fn what_reviews_decide(
    config: ProtocolConfig,
    pr: PullRequestState,
    head: String,
    agree: bool,
    r: Result<Outcome, String>,
)
    requires
        call_ensures(
            decide::decide_with_peer_review,
            (&config, &pr, Ok::<String, String>(head), agree),
            r,
        ),
    ensures
        ({
            let reviews = pr.reviews@;
            let elsewhere = exists|i: int|
                0 <= i < reviews.len() && text::trimmed((#[trigger] reviews[i]).base_sha@)
                    != text::trimmed(head@);
            let apart = environments_differ(reviews);
            let all_improved = forall|i: int|
                0 <= i < reviews.len() ==> (#[trigger] reviews[i]).observation
                    == Observation::Improved;
            let none_improved = forall|i: int|
                0 <= i < reviews.len() ==> (#[trigger] reviews[i]).observation
                    == Observation::NoImprovement;
            let silent = reviews.filter(
                |r: ReviewRecord|
                    r.observation == Observation::Crashed || r.observation
                        == Observation::InfraFailure,
            ).len();
            &&& r is Err <==> reviews.len() < config.required_confirmations
                || config.metric_tolerance is None
            &&& r matches Ok(o) ==> {
                &&& o == Outcome::Stale <==> elsewhere
                &&& o == Outcome::Accepted <==> reviews.len() > 0 && !elsewhere && !apart && agree
                    && all_improved
                &&& o == Outcome::NonImprovement <==> reviews.len() > 0 && !elsewhere && !apart
                    && agree && none_improved
                &&& o == Outcome::InfraFailure <==> !elsewhere && !apart && silent
                    >= reviews.len() - silent
                &&& o == Outcome::Disagreement || o == Outcome::Stale || o == Outcome::Accepted || o
                    == Outcome::NonImprovement || o == Outcome::InfraFailure
            }
        }),
{
    let reviews = pr.reviews@;
    lemma_void(reviews);
    lemma_says(reviews);
    assert(environments_differ(reviews) <==> !decide::one_environment(reviews)) by {
        if !decide::one_environment(reviews) {
            let (i, j) = choose|i: int, j: int|
                #![trigger reviews[i], reviews[j]]
                0 <= i < reviews.len() && 0 <= j < reviews.len()
                    && crate::comments::option_text(reviews[i].env_sha)
                    != crate::comments::option_text(reviews[j].env_sha);
        }
    }
    if reviews.len() > 0 {
        assert(reviews[0] == reviews[0]);
    }
}

/// Where the main head is not known, nothing is decided by reviews, and the same is said.
pub proof fn nothing_is_decided_without_the_main_head(
    config: ProtocolConfig,
    pr: PullRequestState,
    e: String,
    agree: bool,
    r: Result<Outcome, String>,
)
    requires
        call_ensures(
            decide::decide_with_peer_review,
            (&config, &pr, Err::<String, String>(e), agree),
            r,
        ),
        pr.reviews@.len() >= config.required_confirmations,
        config.metric_tolerance is Some,
    ensures
        r == Err::<Outcome, String>(e),
{
}

/// The settlement records the outcome, for the thesis, of the commit.
pub open spec fn records(d: Decision, s: Settlement, sha: Seq<char>, o: Outcome, n: u64) -> bool {
    &&& s.executed.outcome == o
    &&& s.executed.confirmations == n
    &&& s.comment matches ProtocolComment::Decision {
        thesis,
        candidate_sha,
        outcome,
        confirmations,
    } && thesis == d.thesis_number && candidate_sha@ == sha && outcome == o && confirmations == n
}

/// A decision begins with a merge exactly where the candidate is accepted. Any other candidate is
/// closed at once with its own outcome on record; its thesis is closed with it where reviews did
/// not agree, where the policy was broken, and where reviews saw no improvement.
pub proof fn how_a_decision_begins(d: Decision, has_copy: bool, r: DecisionAction)
    requires
        call_ensures(decide::execute_decision, (&d, None, has_copy), r),
    ensures
        r is Merge <==> d.outcome == Outcome::Accepted,
        d.outcome != Outcome::Accepted ==> (r matches DecisionAction::Settle(s) && s.close_candidate
            && records(d, s, d.candidate_sha@, d.outcome, d.confirmations) && (s.close_thesis
            <==> d.outcome == Outcome::Disagreement || d.outcome == Outcome::PolicyRejection || (
        d.outcome == Outcome::NonImprovement && d.required_confirmations != 0))),
{
}

/// Only a merge settles a decision with its own outcome, and then the thesis is closed and the
/// candidate, which the merge has closed, is not. Whatever else comes of an attempt to merge ends,
/// at the latest after one rebase in a working copy, in a closed candidate that is stale, and the
/// thesis stays open.
pub proof fn how_a_decision_goes_on(
    d: Decision,
    done: DecisionAction,
    event: DecisionEvent,
    has_copy: bool,
    r: DecisionAction,
)
    requires
        call_ensures(decide::execute_decision, (&d, Some((done, event)), has_copy), r),
    ensures
        done is Settle ==> r == done,
        !(done is Settle) && !(r is Settle) ==> (done is Merge && event is MergeFailed && has_copy
            && r is Rebase) || (done is Rebase && event is Rebased && (r matches
            DecisionAction::MergeRebased { sha } && sha == event->sha)),
        done is Merge && event is MergeFailed && has_copy ==> r is Rebase,
        done is Rebase && event is Rebased ==> r is MergeRebased,
        done is Merge && event is Merged ==> (r matches DecisionAction::Settle(s)
            && !s.close_candidate && s.close_thesis && records(
            d,
            s,
            d.candidate_sha@,
            d.outcome,
            d.confirmations,
        )),
        done is MergeRebased && event is Merged ==> (r matches DecisionAction::Settle(s)
            && !s.close_candidate && s.close_thesis && records(
            d,
            s,
            done->MergeRebased_sha@,
            d.outcome,
            d.confirmations,
        )),
        !(done is Settle) && r is Settle && !(event is Merged && !(done is Rebase)) ==> (r matches
            DecisionAction::Settle(s) && s.close_candidate && !s.close_thesis && records(
            d,
            s,
            d.candidate_sha@,
            Outcome::Stale,
            0,
        )),
{
}

/// A candidate is decided only while it is open, has passed the policy check, has no decision, is
/// not rejected by the maintainer, has their approval where it is wanted, and has its reviews; and
/// then it can be.
pub proof fn what_can_be_decided(
    config: ProtocolConfig,
    pr: PullRequestState,
    required: usize,
    r: bool,
)
    requires
        call_ensures(decide::is_pr_decidable, (&config, &pr, required), r),
    ensures
        r <==> pr.pr.state@ == "OPEN"@ && pr.policy_pass && pr.decision is None
            && !pr.maintainer_rejected && (!config.auto_approve ==> pr.maintainer_approved)
            && pr.reviews@.len() >= required,
{
}

/// Where the maintainer is asked, a candidate goes ahead exactly where they have approved it and not
/// rejected it; until then they are assigned to it, unless nothing is to be changed.
pub proof fn the_maintainer_is_asked(
    config: ProtocolConfig,
    pr: PullRequestState,
    number: u64,
    dry_run: bool,
    r: Result<MaintainerStep, String>,
)
    requires
        call_ensures(decide::maintainer_step, (&config, &pr, number, dry_run), r),
    ensures
        r is Err <==> !config.auto_approve && config.maintainer_github_login is None,
        r matches Ok(s) ==> {
            let goes_ahead = config.auto_approve || (pr.maintainer_approved
                && !pr.maintainer_rejected);
            &&& s.refusal is None <==> goes_ahead
            &&& s.assign is Some <==> !goes_ahead && !dry_run
            &&& s.assign is Some ==> s.assign == config.maintainer_github_login
        },
{
}

/// The closed candidates that were turned down, as stale or as no improvement, since the time.
pub open spec fn turned_down_since(
    prs: Seq<PullRequestState>,
    since: Option<Timestamp>,
) -> Seq<PullRequestState> {
    prs.filter(
        |p: PullRequestState|
            p.pr.state@ == "CLOSED"@ && (p.decision matches Some(d) && (d.outcome
                == Outcome::NonImprovement || d.outcome == Outcome::Stale) && (since matches Some(t)
                ==> !before(d.created_at, t))),
    )
}

/// The count of rejections is that of the closed candidates that were turned down.
pub proof fn rejections_are_counted(prs: Seq<PullRequestState>, since: Option<Timestamp>)
    ensures
        duties::rejections(prs, since) == turned_down_since(prs, since).len(),
    decreases prs.len(),
{
    reveal(Seq::filter);
    if prs.len() > 0 {
        rejections_are_counted(prs.drop_last(), since);
    }
}

/// The claim on a thesis is given up, for want of an improvement, exactly where a candidate was
/// turned down without reviews that is not the first one since the thesis was claimed.
pub proof fn the_second_rejection_releases_the_claim(
    config: ProtocolConfig,
    thesis: ThesisState,
    outcome: Outcome,
    dry_run: bool,
    r: Option<ProtocolComment>,
)
    requires
        call_ensures(
            decide::release_after_rejections,
            (&config, &thesis, outcome, dry_run),
            r,
        ),
    ensures
        r is Some <==> !dry_run && config.required_confirmations == 0 && (outcome
            == Outcome::NonImprovement || outcome == Outcome::Stale)
            && thesis.active_claims@.len() > 0 && turned_down_since(
            thesis.pull_requests@,
            Some(thesis.active_claims@[0].created_at),
        ).len() >= 1,
        r matches Some(c) ==> (c matches ProtocolComment::Release { thesis: t, node, reason } && t
            == thesis.issue.number && node@ == thesis.active_claims@[0].node@ && reason
            == ReleaseReason::NoImprovement),
{
    if thesis.active_claims@.len() > 0 {
        rejections_are_counted(thesis.pull_requests@, Some(thesis.active_claims@[0].created_at));
    }
}

/// What follows a policy check: a candidate that has passed gets its pass, for its thesis and its
/// head, and stays open; one that has not is decided as a rejection by policy.
pub proof fn what_follows_a_policy_check(
    passed: bool,
    thesis: Option<u64>,
    sha: String,
    dry_run: bool,
    r: PolicyStep,
)
    requires
        call_ensures(policy_check::after_check, (passed, thesis, sha, dry_run), r),
    ensures
        r is Nothing <==> dry_run || thesis is None,
        r is Pass <==> !dry_run && thesis is Some && passed,
        r matches PolicyStep::Pass { comment } ==> (comment matches ProtocolComment::PolicyPass {
            thesis: t,
            candidate_sha,
        } && Some(t) == thesis && candidate_sha@ == sha@),
        r matches PolicyStep::Reject { comment, thesis: closed } ==> Some(closed) == thesis && (
        comment matches ProtocolComment::Decision {
            thesis: t,
            candidate_sha,
            outcome,
            confirmations,
        } && Some(t) == thesis && candidate_sha@ == sha@ && outcome == Outcome::PolicyRejection
            && confirmations == 0),
{
}

/// A decision counts the reviews as confirmations where confirmations are required, and none
/// elsewhere.
pub proof fn what_is_confirmed(config: ProtocolConfig, pr: PullRequestState, r: u64)
    requires
        call_ensures(decide::confirmations, (&config, &pr), r),
    ensures
        config.required_confirmations == 0 ==> r == 0,
        config.required_confirmations > 0 ==> r == pr.reviews@.len(),
{
}

} // verus!
