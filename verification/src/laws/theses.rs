//! What holds of every thesis and candidate whose state is derived.
use crate::comments::ReleaseReason;
use crate::config::{MetricDirection, ProtocolConfig};
use crate::discussion;
use crate::github::{Issue, IssueComment, PullRequest};
use crate::metric;
use crate::sort;
use crate::state;
use crate::state::{
    PullRequestState, PullRequestView, ReleaseRecord, ThesisPhase, ThesisState,
};
use crate::text;
use crate::time::Timestamp;
use crate::validation::{IssueContext, IssueProgress, ProtocolEnvelope, PullRequestProgress};
use vstd::prelude::*;

verus! {

/// The first point of time lies before the second one.
pub open spec fn before(a: Timestamp, b: Timestamp) -> bool {
    a.secs < b.secs || (a.secs == b.secs && a.nanos < b.nanos)
}

/// One of the candidates was decided.
pub open spec fn one_decided(prs: Seq<PullRequestState>) -> bool {
    exists|i: int| 0 <= i < prs.len() && (#[trigger] prs[i]).decision is Some
}

/// One of the candidates is open.
pub open spec fn one_open(prs: Seq<PullRequestState>) -> bool {
    exists|i: int| 0 <= i < prs.len() && (#[trigger] prs[i]).pr.state@ == "OPEN"@
}

/// One of the candidates is open and has passed the policy check.
pub open spec fn one_open_and_passed(prs: Seq<PullRequestState>) -> bool {
    exists|i: int|
        0 <= i < prs.len() && (#[trigger] prs[i]).pr.state@ == "OPEN"@ && prs[i].policy_pass
}

/// One of the releases was made for want of an improvement.
pub open spec fn one_gave_up(releases: Seq<ReleaseRecord>) -> bool {
    exists|i: int|
        0 <= i < releases.len() && (#[trigger] releases[i]).reason == ReleaseReason::NoImprovement
}

proof fn lemma_view(prs: Seq<PullRequestState>)
    ensures
        state::pull_request_views(prs).len() == prs.len(),
        forall|i: int|
            0 <= i < prs.len() ==> #[trigger] state::pull_request_views(prs)[i] == prs[i]@,
{
}

proof fn lemma_latest(prs: Seq<PullRequestView>)
    ensures
        state::latest_decision(prs) is Some <==> exists|i: int|
            0 <= i < prs.len() && (#[trigger] prs[i]).decision is Some,
        state::latest_decision(prs) matches Some(d) ==> (exists|i: int|
            0 <= i < prs.len() && (#[trigger] prs[i]).decision == Some(d)) && (forall|j: int|
            0 <= j < prs.len() && (#[trigger] prs[j]).decision is Some ==> !before(
                d.created_at,
                prs[j].decision->Some_0.created_at,
            )),
    decreases prs.len(),
{
    if prs.len() > 0 {
        let rest = prs.drop_last();
        let n = prs.len() - 1;
        lemma_latest(rest);
        if let Some(d) = state::latest_decision(rest) {
            let i = choose|i: int| 0 <= i < rest.len() && (#[trigger] rest[i]).decision == Some(d);
            assert(prs[i].decision == Some(d));
        }
        assert(prs[n] == prs.last());
        if exists|i: int| 0 <= i < prs.len() && (#[trigger] prs[i]).decision is Some {
            let i = choose|i: int| 0 <= i < prs.len() && (#[trigger] prs[i]).decision is Some;
            if i < n {
                assert(rest[i].decision is Some);
            }
        }
        if let Some(d) = state::latest_decision(prs) {
            assert forall|j: int| 0 <= j < prs.len() && (#[trigger] prs[j]).decision is Some implies !before(
                d.created_at,
                prs[j].decision->Some_0.created_at,
            ) by {
                if j < n {
                    assert(rest[j] == prs[j]);
                }
            }
        }
    }
}

proof fn lemma_candidates(prs: Seq<PullRequestView>, number: u64)
    ensures
        state::candidates_for(prs, number) == prs.filter(
            |p: PullRequestView| p.thesis_number == Some(number),
        ),
    decreases prs.len(),
{
    reveal(Seq::filter);
    if prs.len() > 0 {
        lemma_candidates(prs.drop_last(), number);
    }
}

/// What is asked for where the state of a thesis is derived: the discussion that it comes from.
spec fn discussed(
    t: ThesisState,
    issue: Issue,
    posted: Seq<IssueComment>,
    prs: Seq<PullRequestView>,
    config: ProtocolConfig,
    now: Timestamp,
    p: IssueProgress,
) -> bool {
    let mine = state::candidates_for(prs, issue.number);
    &&& t.shows(issue, mine, p, config.metric_direction)
    &&& exists|envelopes: Seq<ProtocolEnvelope>| #[trigger]
        state::reads(envelopes, posted) && p == IssueProgress::after(
            (IssueContext {
                issue,
                config,
                latest_decision: match state::latest_decision(mine) {
                    Some(d) => Some(d.created_at),
                    None => None,
                },
                now,
            }),
            sort::sorted(envelopes),
        )
}

proof fn lemma_discussed(
    t: ThesisState,
    issue: Issue,
    posted: Seq<IssueComment>,
    prs: Seq<PullRequestView>,
    config: ProtocolConfig,
    now: Timestamp,
) -> (p: IssueProgress)
    requires
        t.derived(issue, posted, prs, config, now),
    ensures
        discussed(t, issue, posted, prs, config, now, p),
        p.claim is Some ==> p.approved,
{
    let mine = state::candidates_for(prs, issue.number);
    let x = IssueContext {
        issue,
        config,
        latest_decision: match state::latest_decision(mine) {
            Some(d) => Some(d.created_at),
            None => None,
        },
        now,
    };
    let envelopes = choose|envelopes: Seq<ProtocolEnvelope>| #[trigger]
        state::reads(envelopes, posted) && t.shows(
            issue,
            mine,
            IssueProgress::after(x, sort::sorted(envelopes)),
            config.metric_direction,
        );
    discussion::issue_discussion_is_sound(x, sort::sorted(envelopes));
    IssueProgress::after(x, sort::sorted(envelopes))
}

/// The phase of a derived thesis says how far its candidates have come. It is resolved exactly
/// where a candidate was decided, by the outcome of a decision that no other decision follows.
/// Without a decision it is in review exactly where an open candidate has passed the policy check,
/// and has a candidate submitted exactly where candidates are open and none of these has passed.
/// Where none is open, it is claimed exactly where somebody holds it; else it is exhausted where it
/// was approved and given up for want of an improvement, and approved where it was approved and not
/// given up; what was never approved is rejected where it is closed, and else submitted.
pub proof fn the_phase_says_how_far_it_came(
    issue: Issue,
    posted: Vec<IssueComment>,
    pr_states: Vec<PullRequestState>,
    config: ProtocolConfig,
    now: Timestamp,
    r: Result<ThesisState, String>,
)
    requires
        call_ensures(ThesisState::derive, (issue, posted, &pr_states, &config, now), r),
    ensures
        r is Ok,
        r matches Ok(t) ==> {
            let prs = t.pull_requests@;
            &&& t.phase is Resolved <==> one_decided(prs)
            &&& t.phase matches ThesisPhase::Resolved { outcome } ==> exists|i: int|
                0 <= i < prs.len() && (#[trigger] prs[i]).decision is Some
                    && prs[i].decision->Some_0.outcome == outcome && forall|j: int|
                    0 <= j < prs.len() && (#[trigger] prs[j]).decision is Some ==> !before(
                        prs[i].decision->Some_0.created_at,
                        prs[j].decision->Some_0.created_at,
                    )
            &&& t.phase == ThesisPhase::InReview <==> !one_decided(prs) && one_open_and_passed(prs)
            &&& t.phase == ThesisPhase::CandidateSubmitted <==> !one_decided(prs) && one_open(prs)
                && !one_open_and_passed(prs)
            &&& !one_decided(prs) && !one_open(prs) ==> {
                &&& t.phase == ThesisPhase::Claimed <==> t.active_claims@.len() > 0
                &&& t.phase == ThesisPhase::Exhausted <==> t.active_claims@.len() == 0 && t.approved
                    && one_gave_up(t.releases@)
                &&& t.phase == ThesisPhase::Approved <==> t.active_claims@.len() == 0 && t.approved
                    && !one_gave_up(t.releases@)
                &&& t.phase == ThesisPhase::Rejected <==> !t.approved && issue.state@ == "CLOSED"@
                &&& t.phase == ThesisPhase::Submitted <==> !t.approved && issue.state@ != "CLOSED"@
            }
            &&& one_decided(prs) ==> t.active_claims@.len() == 0
        },
{
    let t = r->Ok_0;
    let all = state::pull_request_views(pr_states@);
    let p = lemma_discussed(t, issue, posted@, all, config, now);
    let prs = t.pull_requests@;
    let v = state::pull_request_views(prs);
    lemma_view(prs);
    lemma_latest(v);
    assert(one_decided(prs) <==> state::latest_decision(v) is Some) by {
        if one_decided(prs) {
            let i = choose|i: int| 0 <= i < prs.len() && (#[trigger] prs[i]).decision is Some;
            assert(v[i].decision is Some);
        }
        if state::latest_decision(v) is Some {
            let i = choose|i: int| 0 <= i < v.len() && (#[trigger] v[i]).decision is Some;
            assert(prs[i].decision is Some);
        }
    }
    assert(one_open(prs) <==> state::some_open(v)) by {
        if one_open(prs) {
            let i = choose|i: int| 0 <= i < prs.len() && (#[trigger] prs[i]).pr.state@ == "OPEN"@;
            assert(state::is_open(v[i]));
        }
        if state::some_open(v) {
            let i = choose|i: int| 0 <= i < v.len() && state::is_open(#[trigger] v[i]);
            assert(prs[i].pr.state@ == "OPEN"@);
        }
    }
    assert(one_open_and_passed(prs) <==> state::some_in_review(v)) by {
        if one_open_and_passed(prs) {
            let i = choose|i: int|
                0 <= i < prs.len() && (#[trigger] prs[i]).pr.state@ == "OPEN"@ && prs[i].policy_pass;
            assert(state::is_open(v[i]));
        }
        if state::some_in_review(v) {
            let i = choose|i: int|
                0 <= i < v.len() && state::is_open(#[trigger] v[i]) && v[i].policy_pass;
            assert(prs[i].pr.state@ == "OPEN"@);
        }
    }
    assert(one_open_and_passed(prs) ==> one_open(prs)) by {
        if one_open_and_passed(prs) {
            let i = choose|i: int|
                0 <= i < prs.len() && (#[trigger] prs[i]).pr.state@ == "OPEN"@ && prs[i].policy_pass;
            assert(prs[i].pr.state@ == "OPEN"@);
        }
    }
    if let Some(d) = state::latest_decision(v) {
        let i = choose|i: int| 0 <= i < v.len() && (#[trigger] v[i]).decision == Some(d);
        assert(prs[i].decision == Some(d));
        assert forall|j: int| 0 <= j < prs.len() && (#[trigger] prs[j]).decision is Some implies !before(
            d.created_at,
            prs[j].decision->Some_0.created_at,
        ) by {
            assert(v[j].decision == prs[j].decision);
        }
    }
}

/// A derived thesis has exactly the candidates that were derived with its number, in their order.
pub proof fn a_thesis_has_its_candidates(
    issue: Issue,
    posted: Vec<IssueComment>,
    pr_states: Vec<PullRequestState>,
    config: ProtocolConfig,
    now: Timestamp,
    r: Result<ThesisState, String>,
)
    requires
        call_ensures(ThesisState::derive, (issue, posted, &pr_states, &config, now), r),
    ensures
        r matches Ok(t) && t.issue == issue && state::pull_request_views(t.pull_requests@)
            == state::pull_request_views(pr_states@).filter(
            |p: PullRequestView| p.thesis_number == Some(issue.number),
        ),
{
    let t = r->Ok_0;
    let all = state::pull_request_views(pr_states@);
    let p = lemma_discussed(t, issue, posted@, all, config, now);
    lemma_candidates(all, issue.number);
}

/// `a` is a number, and at least as good as the number `b`.
pub open spec fn good_as(a: u64, b: u64, direction: MetricDirection) -> bool {
    !metric::not_a_number(a) && (match direction {
        MetricDirection::HigherIsBetter => !metric::less(a, b),
        MetricDirection::LowerIsBetter => !metric::less(b, a),
    })
}

/// The best metric of a derived thesis is that of one of its attempts, and at least as good as that
/// of each attempt with a number; there is none exactly where there is no attempt.
pub proof fn the_best_attempt_is_the_best(
    issue: Issue,
    posted: Vec<IssueComment>,
    pr_states: Vec<PullRequestState>,
    config: ProtocolConfig,
    now: Timestamp,
    r: Result<ThesisState, String>,
)
    requires
        call_ensures(ThesisState::derive, (issue, posted, &pr_states, &config, now), r),
    ensures
        r matches Ok(t) && (t.best_attempt_metric is None <==> t.attempts@.len() == 0)
            && (t.best_attempt_metric matches Some(m) ==> (exists|i: int|
            0 <= i < t.attempts@.len() && (#[trigger] t.attempts@[i]).metric == m) && (forall|i: int|
            0 <= i < t.attempts@.len() && !metric::not_a_number(
                (#[trigger] t.attempts@[i]).metric.bits,
            ) ==> good_as(m.bits, t.attempts@[i].metric.bits, config.metric_direction))),
{
    let t = r->Ok_0;
    let all = state::pull_request_views(pr_states@);
    let p = lemma_discussed(t, issue, posted@, all, config, now);
    let ms = state::attempt_metrics(t.attempts@);
    if ms.len() > 0 {
        state::best_is_as_good_as_all(ms, config.metric_direction);
        let m = t.best_attempt_metric->Some_0;
        let k = choose|k: int| 0 <= k < ms.len() && ms[k] == m;
        assert(t.attempts@[k].metric == m);
        assert forall|i: int|
            0 <= i < t.attempts@.len() && !metric::not_a_number(
                (#[trigger] t.attempts@[i]).metric.bits,
            ) implies good_as(m.bits, t.attempts@[i].metric.bits, config.metric_direction) by {
            assert(ms[i] == t.attempts@[i].metric);
        }
    }
}

/// A derived thesis tells what its discussion has come to, as it was posted: who holds it, when and
/// until when, what was released and why, and every attempt with its own branch, metric, baseline,
/// observation and summary.
pub proof fn a_thesis_tells_what_was_posted(
    issue: Issue,
    posted: Vec<IssueComment>,
    pr_states: Vec<PullRequestState>,
    config: ProtocolConfig,
    now: Timestamp,
    r: Result<ThesisState, String>,
) -> (p: IssueProgress)
    requires
        call_ensures(ThesisState::derive, (issue, posted, &pr_states, &config, now), r),
    ensures
        exists|envelopes: Seq<ProtocolEnvelope>, x: IssueContext| #[trigger]
            state::reads(envelopes, posted@) && x.issue == issue && x.config == config && x.now
                == now && p == #[trigger] IssueProgress::after(x, sort::sorted(envelopes)),
        r matches Ok(t) && {
            &&& t.approved == p.approved
            &&& t.maintainer_approved == p.maintainer_approved
            &&& t.maintainer_rejected == p.maintainer_rejected
            &&& forall|i: int|
                0 <= i < t.active_claims@.len() ==> (p.claim matches Some(c) && !c.expired && (
                #[trigger] t.active_claims@[i]).node == c.node && t.active_claims@[i].created_at
                    == c.created_at && !t.active_claims@[i].expired)
            &&& !(t.phase is Resolved) && (p.claim matches Some(c) && !c.expired)
                ==> t.active_claims@.len() == 1
            &&& t.releases@.len() == p.releases.len()
            &&& forall|i: int|
                0 <= i < t.releases@.len() ==> (#[trigger] t.releases@[i]).node
                    == p.releases[i].node && t.releases@[i].reason == p.releases[i].reason
                    && t.releases@[i].created_at == p.releases[i].created_at
            &&& t.attempts@.len() == p.attempts.len()
            &&& forall|i: int|
                0 <= i < t.attempts@.len() ==> {
                    let a = #[trigger] t.attempts@[i];
                    let b = p.attempts[i];
                    &&& a.thesis == b.thesis
                    &&& a.node == b.node
                    &&& a.branch == b.branch
                    &&& a.metric == b.metric
                    &&& a.baseline_metric == b.baseline_metric
                    &&& a.observation == b.observation
                    &&& a.summary == b.summary
                    &&& a.author == b.author
                    &&& a.created_at == b.created_at
                    &&& a.comment_id == b.comment_id
                }
        },
{
    let t = r->Ok_0;
    let all = state::pull_request_views(pr_states@);
    let p = lemma_discussed(t, issue, posted@, all, config, now);
    let mine = state::candidates_for(all, issue.number);
    let envelopes = choose|envelopes: Seq<ProtocolEnvelope>| #[trigger]
        state::reads(envelopes, posted@) && p == IssueProgress::after(
            (IssueContext {
                issue,
                config,
                latest_decision: match state::latest_decision(mine) {
                    Some(d) => Some(d.created_at),
                    None => None,
                },
                now,
            }),
            sort::sorted(envelopes),
        );
    p
}

/// The state of a candidate tells what its discussion has come to, as it was posted, and belongs to
/// the thesis whose number its branch bears.
pub proof fn a_candidate_tells_what_was_posted(
    pr: PullRequest,
    posted: Vec<IssueComment>,
    config: ProtocolConfig,
    r: Result<PullRequestState, String>,
) -> (p: PullRequestProgress)
    requires
        call_ensures(PullRequestState::derive, (pr, posted, &config), r),
    ensures
        exists|envelopes: Seq<ProtocolEnvelope>| #[trigger]
            state::reads(envelopes, posted@) && p == PullRequestProgress::after(
                pr,
                sort::sorted(envelopes),
                config,
            ),
        r matches Ok(s) && {
            &&& s.pr == pr
            &&& s.policy_pass == p.policy_pass
            &&& s.maintainer_approved == p.maintainer_approved
            &&& s.maintainer_rejected == p.maintainer_rejected
            &&& s.decision is Some <==> p.decision is Some
            &&& s.decision matches Some(d) ==> (p.decision matches Some(e) && d.outcome == e.outcome
                && d.candidate_sha == e.candidate_sha && d.confirmations == e.confirmations
                && d.created_at == e.created_at)
            &&& s.review_claims@.len() == p.review_claims.len()
            &&& forall|i: int|
                0 <= i < s.review_claims@.len() ==> (#[trigger] s.review_claims@[i]).node
                    == p.review_claims[i].node && s.review_claims@[i].created_at
                    == p.review_claims[i].created_at
            &&& s.reviews@.len() == p.reviews.len()
            &&& forall|i: int|
                0 <= i < s.reviews@.len() ==> {
                    let a = #[trigger] s.reviews@[i];
                    let b = p.reviews[i];
                    &&& a.node == b.node
                    &&& a.metric == b.metric
                    &&& a.baseline_metric == b.baseline_metric
                    &&& a.observation == b.observation
                    &&& a.candidate_sha == b.candidate_sha
                    &&& a.base_sha == b.base_sha
                    &&& a.env_sha == b.env_sha
                    &&& a.timestamp == b.timestamp
                    &&& a.created_at == b.created_at
                }
        },
        forall|n: u64|
            #![trigger text::decimal(n as nat)]
            text::begins(
                pr.head_ref_name@,
                "thesis/"@ + text::decimal(n as nat) + "-"@,
            ) ==> (r matches Ok(s) && s.thesis_number == Some(n)),
        !text::begins(pr.head_ref_name@, "thesis/"@) ==> (r matches Ok(s)
            && s.thesis_number is None),
{
    let s = r->Ok_0;
    let envelopes = choose|envelopes: Seq<ProtocolEnvelope>| #[trigger]
        state::reads(envelopes, posted@) && s.shows(
            pr,
            PullRequestProgress::after(pr, sort::sorted(envelopes), config),
        );
    assert forall|n: u64|
        #![trigger text::decimal(n as nat)]
        text::begins(
            pr.head_ref_name@,
            "thesis/"@ + text::decimal(n as nat) + "-"@,
        ) implies s.thesis_number == Some(n) by {
        discussion::lemma_branch_of_thesis(pr.head_ref_name@, n);
    }
    PullRequestProgress::after(pr, sort::sorted(envelopes), config)
}

} // verus!
