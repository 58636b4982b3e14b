//! What holds of every state that is derived.
use crate::config::ProtocolConfig;
use crate::discussion;
use crate::github::{Issue, IssueComment};
use crate::sort;
use crate::state;
use crate::state::{
    ClaimRecord, PullRequestState, PullRequestView, RepositoryState, ThesisPhase,
    ThesisState,
};
use crate::text;
use crate::text_set;
use crate::time::Timestamp;
use crate::validation::{IssueContext, IssueProgress, ProtocolEnvelope};
use vstd::prelude::*;

verus! {

/// A thesis is held by one node at most; one that is resolved is held by nobody; it is resolved
/// exactly where a candidate for it was decided; and all its candidates and attempts belong to it.
pub proof fn thesis_state_is_consistent(
    t: ThesisState,
    issue: Issue,
    posted: Seq<IssueComment>,
    prs: Seq<PullRequestView>,
    config: ProtocolConfig,
    now: Timestamp,
)
    requires
        t.derived(issue, posted, prs, config, now),
    ensures
        t.active_claims@.len() <= 1,
        t.phase is Resolved ==> t.active_claims@.len() == 0,
        t.phase == ThesisPhase::Claimed ==> t.active_claims@.len() == 1,
        t.phase is Resolved <==> state::latest_decision(
            state::candidates_for(prs, issue.number),
        ) is Some,
        t.active_claims@.len() > 0 ==> t.approved,
        t.attempts@.len() > 0 ==> t.approved,
        !(t.maintainer_approved && t.maintainer_rejected),
        forall|i: int|
            0 <= i < t.attempts@.len() ==> (#[trigger] t.attempts@[i]).thesis == issue.number
                && state::thesis_of_branch(t.attempts@[i].branch@) == Some(issue.number),
        forall|i: int, j: int|
            0 <= i < j < t.attempts@.len() ==> (#[trigger] t.attempts@[i]).branch@ != (
            #[trigger] t.attempts@[j]).branch@,
{
    let mine = state::candidates_for(prs, issue.number);
    let x = IssueContext {
        issue,
        config,
        latest_decision: match state::latest_decision(mine) {
            Some(d) => Some(d.created_at),
            None => None,
        },
        now,
    };
    let envelopes = choose|envelopes: Seq<ProtocolEnvelope>| #[trigger]
        state::reads(envelopes, posted) && t.shows(
            issue,
            mine,
            IssueProgress::after(x, sort::sorted(envelopes)),
            config.metric_direction,
        );
    let p = IssueProgress::after(x, sort::sorted(envelopes));
    discussion::issue_discussion_is_sound(x, sort::sorted(envelopes));
    assert forall|i: int| 0 <= i < t.attempts@.len() implies (#[trigger] t.attempts@[i]).thesis
        == issue.number && state::thesis_of_branch(t.attempts@[i].branch@) == Some(
        issue.number,
    ) by {
        assert(t.attempts@[i] == state::shown_attempt(p.attempts[i]));
    }
    assert forall|i: int, j: int| 0 <= i < j < t.attempts@.len() implies (
    #[trigger] t.attempts@[i]).branch@ != (#[trigger] t.attempts@[j]).branch@ by {
        assert(t.attempts@[i] == state::shown_attempt(p.attempts[i]));
        assert(t.attempts@[j] == state::shown_attempt(p.attempts[j]));
    }
}

/// What is among the candidates for a thesis has its number, and nothing with its number is left
/// out.
pub proof fn candidates_belong_to_their_thesis(prs: Seq<PullRequestView>, number: u64)
    ensures
        forall|p: PullRequestView|
            #[trigger] state::candidates_for(prs, number).contains(p) <==> prs.contains(p)
                && p.thesis_number == Some(number),
    decreases prs.len(),
{
    let r = state::candidates_for(prs, number);
    if prs.len() > 0 {
        let rest = prs.drop_last();
        candidates_belong_to_their_thesis(rest, number);
        let q = state::candidates_for(rest, number);
        assert forall|p: PullRequestView| #[trigger] r.contains(p) <==> prs.contains(p)
            && p.thesis_number == Some(number) by {
            assert(prs[prs.len() - 1] == prs.last());
            if prs.contains(p) {
                let k = choose|k: int| 0 <= k < prs.len() && prs[k] == p;
                if k < rest.len() {
                    assert(rest[k] == p);
                    assert(rest.contains(p));
                }
            }
            if rest.contains(p) {
                let k = choose|k: int| 0 <= k < rest.len() && rest[k] == p;
                assert(prs[k] == p);
            }
            if q.contains(p) {
                let k = choose|k: int| 0 <= k < q.len() && q[k] == p;
                assert(r[k] == p);
            }
            if r.contains(p) {
                let k = choose|k: int| 0 <= k < r.len() && r[k] == p;
                if k < q.len() {
                    assert(q[k] == p);
                    assert(q.contains(p));
                }
            }
            if r.len() > q.len() {
                assert(r[q.len() as int] == prs.last());
            }
        }
    }
}

proof fn lemma_claiming_nodes(theses: Seq<ThesisState>, node: Seq<char>)
    ensures
        state::claiming_nodes(theses).contains(node) <==> exists|i: int|
            0 <= i < theses.len() && (#[trigger] theses[i]).held_by(node),
    decreases theses.len(),
{
    let all = state::claiming_nodes(theses);
    if theses.len() > 0 {
        let rest = theses.drop_last();
        let last = theses.last();
        let a = state::claiming_nodes(rest);
        let b = last.active_claims@.map_values(|c: ClaimRecord| c.node@);
        lemma_claiming_nodes(rest, node);
        assert(theses[theses.len() - 1] == last);
        if all.contains(node) {
            let k = choose|k: int| 0 <= k < all.len() && all[k] == node;
            if k < a.len() {
                assert(a[k] == node);
                let i = choose|i: int| 0 <= i < rest.len() && (#[trigger] rest[i]).held_by(node);
                assert(theses[i].held_by(node));
            } else {
                assert(b[k - a.len()] == node);
                assert(last.active_claims@[k - a.len()].node@ == node);
                assert(last.held_by(node));
            }
        }
        if exists|i: int| 0 <= i < theses.len() && (#[trigger] theses[i]).held_by(node) {
            let i = choose|i: int| 0 <= i < theses.len() && (#[trigger] theses[i]).held_by(node);
            if i < rest.len() {
                assert(rest[i].held_by(node));
                let k = choose|k: int| 0 <= k < a.len() && a[k] == node;
                assert(all[k] == node);
            } else {
                let k = choose|k: int|
                    0 <= k < last.active_claims@.len() && (#[trigger] last.active_claims@[k]).node@
                        == node;
                assert(b[k] == node);
                assert(all[a.len() + k] == node);
            }
        }
    }
}

/// The active nodes are those that hold a thesis, each once and in order; so a node whose theses
/// are all resolved is not among them.
pub proof fn active_nodes_hold_theses(
    s: RepositoryState,
    prs: Seq<PullRequestState>,
    theses: Seq<ThesisState>,
    config: ProtocolConfig,
    node: Seq<char>,
)
    requires
        s.gathers(prs, theses, config),
    ensures
        text_set::ascending(text::texts(s.active_nodes@)),
        text::texts(s.active_nodes@).contains(node) <==> exists|i: int|
            0 <= i < s.theses@.len() && (#[trigger] s.theses@[i]).held_by(node),
{
    text_set::set_is_ordered_and_complete(state::claiming_nodes(s.theses@));
    lemma_claiming_nodes(s.theses@, node);
}

/// The theses stand by number, the events from the latest on, at most fifty of them, and no
/// finding is lost.
pub proof fn lists_are_ordered_and_complete(
    s: RepositoryState,
    prs: Seq<PullRequestState>,
    theses: Seq<ThesisState>,
    config: ProtocolConfig,
)
    requires
        s.gathers(prs, theses, config),
    ensures
        sort::in_order(s.theses@),
        s.theses@.to_multiset() == theses.to_multiset(),
        sort::in_order(s.recent_events@),
        s.recent_events@.len() <= state::RECENT_EVENTS,
        sort::in_order(s.audit_findings@),
        s.audit_findings@.to_multiset() == (state::candidate_findings(prs)
            + state::thesis_findings(s.theses@)).to_multiset(),
{
    sort::sorted_is_ordered_and_complete(theses);
    sort::sorted_is_ordered_and_complete(
        state::candidate_findings(prs) + state::thesis_findings(s.theses@),
    );
    let events = choose|events: Seq<state::ActivityEvent>|
        state::event_views(events) == state::all_events(s.theses@) && s.recent_events@
            == state::latest_events(#[trigger] sort::sorted(events));
    sort::sorted_is_ordered_and_complete(events);
    let r = s.recent_events@;
    assert forall|i: int, j: int| 0 <= i < j < r.len() implies !sort::Ranked::after(
        #[trigger] r[i],
        #[trigger] r[j],
    ) by {
        assert(r[i] == sort::sorted(events)[i]);
        assert(r[j] == sort::sorted(events)[j]);
    }
}

} // verus!
