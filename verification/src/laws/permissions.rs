//! What may be claimed, reviewed, submitted and decided, and by whom.
use crate::commands::batch_claim;
use crate::commands::claim;
use crate::commands::contribute;
use crate::commands::contribute::ContributeAction;
use crate::commands::guards;
use crate::commands::policy_check;
use crate::commands::submit;
use crate::comments::{Observation, ProtocolComment, ReleaseReason};
use crate::config::ProtocolConfig;
use crate::laws::theses::before;
use crate::ledger::Ledger;
use crate::sort;
use crate::sort::Ranked;
use crate::state::{
    AttemptRecord, PullRequestState, ReleaseRecord, RepositoryState, ThesisPhase, ThesisState,
};
use crate::time::Timestamp;
use vstd::prelude::*;

verus! {

/// The thesis at the place is the first one with the number.
pub open spec fn thesis_is_at(s: RepositoryState, number: u64, i: int) -> bool {
    &&& 0 <= i < s.theses@.len()
    &&& s.theses@[i].issue.number == number
    &&& forall|j: int| 0 <= j < i ==> (#[trigger] s.theses@[j]).issue.number != number
}

/// There is a thesis with the number.
pub open spec fn has_thesis(s: RepositoryState, number: u64) -> bool {
    exists|i: int| 0 <= i < s.theses@.len() && (#[trigger] s.theses@[i]).issue.number == number
}

proof fn lemma_thesis(s: RepositoryState, number: u64, from: int)
    requires
        0 <= from,
        forall|j: int|
            0 <= j < from && j < s.theses@.len() ==> (#[trigger] s.theses@[j]).issue.number
                != number,
    ensures
        match RepositoryState::thesis_at(s.theses@, number, from) {
            Some(i) => thesis_is_at(s, number, i),
            None => !has_thesis(s, number),
        },
    decreases s.theses@.len() - from,
{
    if from < s.theses@.len() && s.theses@[from].issue.number != number {
        lemma_thesis(s, number, from + 1);
    }
}

/// The first thesis with a number is the one that is looked up by it.
pub proof fn a_thesis_is_found_by_its_place(s: RepositoryState, number: u64, i: int)
    requires
        thesis_is_at(s, number, i),
    ensures
        RepositoryState::thesis_at(s.theses@, number, 0) == Some(i),
{
    lemma_thesis(s, number, 0);
    assert(s.theses@[i].issue.number == number);
    assert(has_thesis(s, number));
    let k = RepositoryState::thesis_at(s.theses@, number, 0)->Some_0;
    if k < i {
        assert(s.theses@[k].issue.number != number);
    } else if i < k {
        assert(s.theses@[i].issue.number != number);
    }
}

/// A thesis is found by its number exactly where there is one with it, and the first one is.
pub proof fn a_thesis_is_found_by_its_number(
    s: RepositoryState,
    number: u64,
    r: Result<&ThesisState, String>,
)
    requires
        call_ensures(guards::find_thesis, (&s, number), r),
    ensures
        r is Ok <==> has_thesis(s, number),
        r matches Ok(t) ==> exists|i: int| #[trigger] thesis_is_at(s, number, i) && *t
            == s.theses@[i],
{
    lemma_thesis(s, number, 0);
    if r is Ok {
        let i = RepositoryState::thesis_at(s.theses@, number, 0)->Some_0;
        assert(thesis_is_at(s, number, i));
        assert(s.theses@[i].issue.number == number);
    }
}

/// A thesis may be claimed exactly where it is open, approved, and in the phase of an approved thesis
/// that nobody works at.
pub proof fn which_thesis_is_claimable(
    s: RepositoryState,
    number: u64,
    i: int,
    r: Result<&ThesisState, String>,
)
    requires
        call_ensures(guards::require_claimable_thesis, (&s, number), r),
        thesis_is_at(s, number, i),
    ensures
        r is Ok <==> s.theses@[i].issue.state@ == "OPEN"@ && s.theses@[i].approved
            && s.theses@[i].phase == ThesisPhase::Approved,
        r matches Ok(t) ==> *t == s.theses@[i],
{
    a_thesis_is_found_by_its_place(s, number, i);
}

/// A node works at a thesis only where the thesis is open and one of its claims is the node's.
pub proof fn who_works_at_a_thesis(
    s: RepositoryState,
    number: u64,
    node: &str,
    i: int,
    r: Result<&ThesisState, String>,
)
    requires
        call_ensures(guards::require_claimed_thesis, (&s, number, node), r),
        thesis_is_at(s, number, i),
    ensures
        r is Ok <==> s.theses@[i].issue.state@ == "OPEN"@ && exists|k: int|
            0 <= k < s.theses@[i].active_claims@.len() && (
            #[trigger] s.theses@[i].active_claims@[k]).node@ == node@,
        r matches Ok(t) ==> *t == s.theses@[i],
{
    a_thesis_is_found_by_its_place(s, number, i);
}

/// A number that no thesis has can neither be claimed nor worked at.
pub proof fn an_unknown_thesis_is_refused(
    s: RepositoryState,
    number: u64,
    node: &str,
    a: Result<&ThesisState, String>,
    b: Result<&ThesisState, String>,
)
    requires
        !has_thesis(s, number),
        call_ensures(guards::require_claimable_thesis, (&s, number), a),
        call_ensures(guards::require_claimed_thesis, (&s, number, node), b),
    ensures
        a is Err,
        b is Err,
{
    lemma_thesis(s, number, 0);
}

/// The candidate at the place of the thesis at its place is the first one with the number.
pub open spec fn candidate_is_at(s: RepositoryState, number: u64, i: int, k: int) -> bool {
    &&& 0 <= i < s.theses@.len()
    &&& 0 <= k < s.theses@[i].pull_requests@.len()
    &&& s.theses@[i].pull_requests@[k].pr.number == number
    &&& forall|m: int|
        0 <= m < k ==> (#[trigger] s.theses@[i].pull_requests@[m]).pr.number != number
    &&& forall|j: int, m: int|
        #![trigger s.theses@[j].pull_requests@[m]]
        0 <= j < i && 0 <= m < s.theses@[j].pull_requests@.len()
            ==> s.theses@[j].pull_requests@[m].pr.number != number
}

/// There is a candidate with the number.
pub open spec fn has_candidate(s: RepositoryState, number: u64) -> bool {
    exists|j: int, m: int|
        #![trigger s.theses@[j].pull_requests@[m]]
        0 <= j < s.theses@.len() && 0 <= m < s.theses@[j].pull_requests@.len()
            && s.theses@[j].pull_requests@[m].pr.number == number
}

proof fn lemma_candidate_at(prs: Seq<PullRequestState>, number: u64, from: int)
    requires
        0 <= from,
        forall|j: int|
            0 <= j < from && j < prs.len() ==> (#[trigger] prs[j]).pr.number != number,
    ensures
        match RepositoryState::candidate_at(prs, number, from) {
            Some(k) => 0 <= k < prs.len() && prs[k].pr.number == number && forall|j: int|
                0 <= j < k ==> (#[trigger] prs[j]).pr.number != number,
            None => forall|j: int|
                0 <= j < prs.len() ==> (#[trigger] prs[j]).pr.number != number,
        },
    decreases prs.len() - from,
{
    if from < prs.len() && prs[from].pr.number != number {
        lemma_candidate_at(prs, number, from + 1);
    }
}

proof fn lemma_candidate(s: RepositoryState, number: u64, from: int)
    requires
        0 <= from,
        forall|j: int, m: int|
            #![trigger s.theses@[j].pull_requests@[m]]
            0 <= j < from && j < s.theses@.len() && 0 <= m < s.theses@[j].pull_requests@.len()
                ==> s.theses@[j].pull_requests@[m].pr.number != number,
    ensures
        match RepositoryState::thesis_of_candidate(s.theses@, number, from) {
            Some((i, k)) => candidate_is_at(s, number, i, k),
            None => !has_candidate(s, number),
        },
    decreases s.theses@.len() - from,
{
    if from < s.theses@.len() {
        let prs = s.theses@[from].pull_requests@;
        lemma_candidate_at(prs, number, 0);
        if RepositoryState::candidate_at(prs, number, 0) is None {
            assert forall|j: int, m: int|
                #![trigger s.theses@[j].pull_requests@[m]]
                0 <= j < from + 1 && j < s.theses@.len() && 0 <= m
                    < s.theses@[j].pull_requests@.len() implies s.theses@[j].pull_requests@[m].pr.number
                != number by {
                if j == from {
                    assert(prs[m].pr.number != number);
                }
            }
            lemma_candidate(s, number, from + 1);
        } else {
            let k = RepositoryState::candidate_at(prs, number, 0)->Some_0;
            assert forall|m: int| 0 <= m < k implies (
            #[trigger] s.theses@[from].pull_requests@[m]).pr.number != number by {
                assert(prs[m].pr.number != number);
            }
        }
    }
}

/// The first candidate with a number is the one that is looked up by it.
pub proof fn a_candidate_is_found_by_its_place(s: RepositoryState, number: u64, i: int, k: int)
    requires
        candidate_is_at(s, number, i, k),
    ensures
        RepositoryState::thesis_of_candidate(s.theses@, number, 0) == Some((i, k)),
{
    lemma_candidate(s, number, 0);
    assert(s.theses@[i].pull_requests@[k].pr.number == number);
    assert(has_candidate(s, number));
    let (a, b) = RepositoryState::thesis_of_candidate(s.theses@, number, 0)->Some_0;
    if a < i {
        assert(s.theses@[a].pull_requests@[b].pr.number != number);
    } else if i < a {
        assert(s.theses@[i].pull_requests@[k].pr.number != number);
    } else if b < k {
        assert(s.theses@[i].pull_requests@[b].pr.number != number);
    } else if k < b {
        assert(s.theses@[i].pull_requests@[k].pr.number != number);
    }
}

/// A candidate is found with its own thesis, exactly where there is one with the number.
pub proof fn a_candidate_is_found_with_its_thesis(
    s: RepositoryState,
    number: u64,
    r: Result<(&ThesisState, &PullRequestState), String>,
)
    requires
        call_ensures(guards::require_pull_request, (&s, number), r),
    ensures
        r is Ok <==> has_candidate(s, number),
        r matches Ok((t, p)) ==> p.pr.number == number && exists|i: int, k: int| #[trigger]
            candidate_is_at(s, number, i, k) && *t == s.theses@[i] && *p
                == s.theses@[i].pull_requests@[k],
{
    lemma_candidate(s, number, 0);
    if r is Ok {
        let (i, k) = RepositoryState::thesis_of_candidate(s.theses@, number, 0)->Some_0;
        assert(candidate_is_at(s, number, i, k));
        assert(s.theses@[i].pull_requests@[k].pr.number == number);
    }
}

/// A candidate may be reviewed exactly where it has passed the policy check, is undecided, and was
/// opened by somebody else.
pub proof fn which_candidate_is_reviewable(
    s: RepositoryState,
    number: u64,
    login: &str,
    i: int,
    k: int,
    r: Result<(&ThesisState, &PullRequestState), String>,
)
    requires
        call_ensures(guards::require_reviewable_pr, (&s, number, login), r),
        candidate_is_at(s, number, i, k),
    ensures
        ({
            let p = s.theses@[i].pull_requests@[k];
            r is Ok <==> p.policy_pass && p.decision is None && !(p.pr.author matches Some(a)
                && a.login@ == login@)
        }),
        r matches Ok((t, p)) ==> *t == s.theses@[i] && *p == s.theses@[i].pull_requests@[k],
{
    a_candidate_is_found_by_its_place(s, number, i, k);
}

/// A review is posted only by a node that has claimed it.
pub proof fn who_reviews_a_candidate(
    s: RepositoryState,
    number: u64,
    node: &str,
    i: int,
    k: int,
    r: Result<(&ThesisState, &PullRequestState), String>,
)
    requires
        call_ensures(guards::require_claimed_review_pr, (&s, number, node), r),
        candidate_is_at(s, number, i, k),
    ensures
        r is Ok <==> exists|m: int|
            0 <= m < s.theses@[i].pull_requests@[k].review_claims@.len() && (
            #[trigger] s.theses@[i].pull_requests@[k].review_claims@[m]).node@ == node@,
        r matches Ok((t, p)) ==> *t == s.theses@[i] && *p == s.theses@[i].pull_requests@[k],
{
    a_candidate_is_found_by_its_place(s, number, i, k);
}

/// A candidate may be decided exactly where it has passed the policy check and is undecided, and
/// checked exactly where it has not passed and is undecided.
pub proof fn which_candidate_is_decidable(
    s: RepositoryState,
    number: u64,
    i: int,
    k: int,
    r: Result<(&ThesisState, &PullRequestState), String>,
    c: Result<&PullRequestState, String>,
)
    requires
        call_ensures(guards::require_decidable_pr, (&s, number), r),
        call_ensures(policy_check::require_checkable_pr, (&s, number), c),
        candidate_is_at(s, number, i, k),
    ensures
        ({
            let p = s.theses@[i].pull_requests@[k];
            &&& r is Ok <==> p.policy_pass && p.decision is None
            &&& c is Ok <==> !p.policy_pass && p.decision is None
        }),
        r matches Ok((t, p)) ==> *t == s.theses@[i] && *p == s.theses@[i].pull_requests@[k],
        c matches Ok(p) ==> *p == s.theses@[i].pull_requests@[k],
{
    a_candidate_is_found_by_its_place(s, number, i, k);
}

/// Only the lead passes as the lead.
pub proof fn only_the_lead_leads(config: ProtocolConfig, login: &str, r: Result<String, String>)
    requires
        call_ensures(guards::ensure_lead, (&config, login), r),
    ensures
        r is Ok <==> (config.lead_github_login matches Some(l) && l@ == login@),
        r matches Ok(t) ==> t@ == login@,
{
}

/// The lead goes ahead only where nothing was found and the ledger was read and is current, and
/// then always.
pub proof fn when_the_lead_goes_ahead(
    config: ProtocolConfig,
    login: &str,
    s: RepositoryState,
    ledger: Result<Ledger, String>,
    current: bool,
    r: Result<(String, Ledger), String>,
)
    requires
        call_ensures(guards::ensure_lead_ready, (&config, login, &s, ledger), r),
        ledger matches Ok(l) ==> call_ensures(Ledger::is_current, (&l, &s), current),
    ensures
        r is Ok <==> (config.lead_github_login matches Some(l) && l@ == login@)
            && s.audit_findings@.len() == 0 && ledger is Ok && current,
        r matches Ok(x) ==> Ok::<Ledger, String>(x.1) == ledger,
{
}

/// An action goes ahead exactly where nothing was found.
pub proof fn findings_stand_in_the_way(s: RepositoryState, action: &str, r: Result<(), String>)
    requires
        call_ensures(guards::ensure_clean_audit, (&s, action), r),
    ensures
        r is Ok <==> s.audit_findings@.len() == 0,
{
}

/// A thesis is closed after a release exactly where the release was for want of an improvement and
/// the thesis is exhausted now.
pub proof fn when_a_released_thesis_is_closed(
    s: RepositoryState,
    number: u64,
    reason: ReleaseReason,
    i: int,
    r: bool,
)
    requires
        call_ensures(guards::close_if_exhausted, (&s, number, reason), r),
        thesis_is_at(s, number, i),
    ensures
        r <==> reason == ReleaseReason::NoImprovement && s.theses@[i].phase
            == ThesisPhase::Exhausted,
{
    a_thesis_is_found_by_its_place(s, number, i);
}

/// A thesis is free to be claimed exactly where nobody holds it, and the comment that claims it
/// names it and the node.
pub proof fn how_a_claim_is_made(
    t: ThesisState,
    number: u64,
    node: &str,
    r: Result<(), String>,
    c: ProtocolComment,
)
    requires
        call_ensures(claim::ensure_unclaimed, (&t, number), r),
        call_ensures(claim::claim_comment, (&t, node), c),
    ensures
        r is Ok <==> t.active_claims@.len() == 0,
        c matches ProtocolComment::Claim { thesis, node: n } && thesis == t.issue.number && n@
            == node@,
{
}

/// The node may take the thesis: it is open and approved, nobody holds it, and the node has not given
/// it up for want of an improvement.
pub open spec fn free_for(t: ThesisState, node: Seq<char>) -> bool {
    &&& t.issue.state@ == "OPEN"@
    &&& t.approved
    &&& t.phase == ThesisPhase::Approved
    &&& t.active_claims@.len() == 0
    &&& forall|i: int|
        0 <= i < t.releases@.len() ==> (#[trigger] t.releases@[i]).node@ != node
            || t.releases@[i].reason != ReleaseReason::NoImprovement
}

/// A node may claim exactly the theses that are free for it.
pub proof fn what_a_node_may_claim(t: ThesisState, node: &str, r: bool)
    requires
        call_ensures(contribute::may_claim, (&t, node), r),
    ensures
        r <==> free_for(t, node@),
{
}

proof fn lemma_choices(theses: Seq<ThesisState>, node: Seq<char>)
    requires
        theses.len() <= usize::MAX,
    ensures
        batch_claim::choices(theses, node).len() == theses.filter(
            |t: ThesisState| free_for(t, node),
        ).len(),
        forall|p: int|
            0 <= p < theses.len() && free_for(#[trigger] theses[p], node) ==> exists|i: int|
                0 <= i < batch_claim::choices(theses, node).len() && (
                #[trigger] batch_claim::choices(theses, node)[i]).place == p
                    && batch_claim::choices(theses, node)[i].number == theses[p].issue.number,
        forall|i: int|
            0 <= i < batch_claim::choices(theses, node).len() ==> {
                let c = #[trigger] batch_claim::choices(theses, node)[i];
                c.place < theses.len() && theses[c.place as int].issue.number == c.number
                    && free_for(theses[c.place as int], node)
            },
    decreases theses.len(),
{
    reveal(Seq::filter);
    if theses.len() > 0 {
        let rest = theses.drop_last();
        let n = theses.len() - 1;
        lemma_choices(rest, node);
        let a = batch_claim::choices(rest, node);
        let b = batch_claim::choices(theses, node);
        assert(contribute::is_open_to(theses.last(), node) <==> free_for(theses.last(), node));
        assert forall|p: int| 0 <= p < theses.len() && free_for(#[trigger] theses[p], node) implies exists|
            i: int,
        |
            0 <= i < b.len() && (#[trigger] b[i]).place == p && b[i].number
                == theses[p].issue.number by {
            if p < n {
                assert(rest[p] == theses[p]);
                let i = choose|i: int|
                    0 <= i < a.len() && (#[trigger] a[i]).place == p && a[i].number
                        == rest[p].issue.number;
                assert(b[i] == a[i]);
            } else {
                assert(b[a.len() as int].place == p);
            }
        }
        assert forall|i: int| 0 <= i < b.len() implies ({
            let c = #[trigger] b[i];
            c.place < theses.len() && theses[c.place as int].issue.number == c.number && free_for(
                theses[c.place as int],
                node,
            )
        }) by {
            if i < a.len() {
                assert(b[i] == a[i]);
                assert(rest[a[i].place as int] == theses[a[i].place as int]);
            }
        }
    }
}

/// Of the theses that are free for a node, those with the lowest numbers are taken, lowest first, as
/// many as are asked for or as there are: every free thesis that is not taken has no lower number
/// than any that is.
pub proof fn the_lowest_numbers_are_taken(
    s: RepositoryState,
    node: &str,
    count: usize,
    r: Vec<usize>,
)
    requires
        s.theses@.len() <= usize::MAX,
        call_ensures(batch_claim::select_claimable_theses, (&s, node, count), r),
    ensures
        ({
            let free = s.theses@.filter(|t: ThesisState| free_for(t, node@)).len();
            r@.len() == (if free <= count {
                free
            } else {
                count as nat
            })
        }),
        forall|i: int|
            0 <= i < r@.len() ==> #[trigger] r@[i] < s.theses@.len() && free_for(
                s.theses@[r@[i] as int],
                node@,
            ),
        forall|i: int, j: int|
            0 <= i < j < r@.len() ==> s.theses@[#[trigger] r@[i] as int].issue.number
                <= s.theses@[#[trigger] r@[j] as int].issue.number,
        forall|p: int, i: int|
            #![trigger s.theses@[p], r@[i]]
            0 <= p < s.theses@.len() && free_for(s.theses@[p], node@) && 0 <= i < r@.len() && !(
            exists|k: int| 0 <= k < r@.len() && #[trigger] r@[k] == p)
                ==> s.theses@[r@[i] as int].issue.number <= s.theses@[p].issue.number,
{
    broadcast use vstd::seq_lib::group_to_multiset_ensures;

    let all = batch_claim::choices(s.theses@, node@);
    let ordered = sort::sorted(all);
    lemma_choices(s.theses@, node@);
    sort::sorted_is_ordered_and_complete(all);
    let kept = batch_claim::at_most(ordered, count as nat);
    assert(all.len() == ordered.len());
    assert forall|i: int| 0 <= i < ordered.len() implies ({
        let c = #[trigger] ordered[i];
        c.place < s.theses@.len() && s.theses@[c.place as int].issue.number == c.number && free_for(
            s.theses@[c.place as int],
            node@,
        )
    }) by {
        let c = ordered[i];
        assert(ordered.contains(c));
        assert(ordered.to_multiset().count(c) > 0);
        assert(all.to_multiset().count(c) > 0);
        assert(all.contains(c));
        let j = choose|j: int| 0 <= j < all.len() && all[j] == c;
        assert(all[j] == c);
    }
    assert forall|i: int| 0 <= i < r@.len() implies #[trigger] r@[i] == ordered[i].place && r@[i]
        < s.theses@.len() && free_for(s.theses@[r@[i] as int], node@) by {
        assert(kept[i] == ordered[i]);
    }
    assert forall|i: int, j: int| 0 <= i < j < r@.len() implies s.theses@[#[trigger] r@[i] as int].issue.number
        <= s.theses@[#[trigger] r@[j] as int].issue.number by {
        assert(!ordered[i].after(ordered[j]));
    }
    assert forall|p: int, i: int|
        #![trigger s.theses@[p], r@[i]]
        0 <= p < s.theses@.len() && free_for(s.theses@[p], node@) && 0 <= i < r@.len() && !(exists|
            k: int,
        |
            0 <= k < r@.len() && #[trigger] r@[k] == p) implies s.theses@[r@[i] as int].issue.number
        <= s.theses@[p].issue.number by {
        let m = choose|m: int|
            0 <= m < all.len() && (#[trigger] all[m]).place == p && all[m].number
                == s.theses@[p].issue.number;
        let c = all[m];
        assert(all.contains(c));
        assert(all.to_multiset().count(c) > 0);
        assert(ordered.to_multiset().count(c) > 0);
        assert(ordered.contains(c));
        let k = choose|k: int| 0 <= k < ordered.len() && ordered[k] == c;
        if k < r@.len() {
            assert(r@[k] == p);
        }
        assert(!ordered[i].after(ordered[k]));
    }
}

/// So many theses are claimed as were asked for, one where nothing was said, and none is no number.
pub proof fn how_many_are_asked_for(count: Option<usize>, r: Result<usize, String>)
    requires
        call_ensures(batch_claim::requested_count, (count,), r),
    ensures
        r is Err <==> count == Some(0usize),
        count is None ==> r == Ok::<usize, String>(1),
        count is Some && count != Some(0usize) ==> r == Ok::<usize, String>(count->Some_0),
{
}

/// The release was due to a failure of the node.
pub open spec fn failed_on(r: ReleaseRecord, node: Seq<char>) -> bool {
    r.node@ == node && r.reason != ReleaseReason::NoImprovement
}

proof fn lemma_crash_count(releases: Seq<ReleaseRecord>, node: Seq<char>)
    ensures
        contribute::crashes(releases, node) == releases.filter(
            |r: ReleaseRecord| failed_on(r, node),
        ).len(),
    decreases releases.len(),
{
    reveal(Seq::filter);
    if releases.len() > 0 {
        lemma_crash_count(releases.drop_last(), node);
    }
}

proof fn lemma_last_crash(releases: Seq<ReleaseRecord>, node: Seq<char>)
    ensures
        contribute::last_crash(releases, node) is None <==> forall|i: int|
            0 <= i < releases.len() ==> !failed_on(#[trigger] releases[i], node),
        contribute::last_crash(releases, node) matches Some(t) ==> forall|i: int|
            0 <= i < releases.len() && failed_on(#[trigger] releases[i], node) ==> !before(
                t,
                releases[i].created_at,
            ),
        contribute::last_crash(releases, node) matches Some(t) ==> exists|i: int|
            0 <= i < releases.len() && failed_on(#[trigger] releases[i], node)
                && releases[i].created_at == t,
    decreases releases.len(),
{
    if releases.len() > 0 {
        let rest = releases.drop_last();
        let n = releases.len() - 1;
        lemma_last_crash(rest, node);
        let q = contribute::last_crash(rest, node);
        let l = contribute::last_crash(releases, node);
        assert(releases[n] == releases.last());
        assert(forall|i: int| 0 <= i < n ==> #[trigger] releases[i] == rest[i]);
        if q is Some {
            let i = choose|i: int|
                0 <= i < rest.len() && failed_on(#[trigger] rest[i], node) && rest[i].created_at
                    == q->Some_0;
            assert(failed_on(releases[i], node) && releases[i].created_at == q->Some_0);
        }
        if failed_on(releases[n], node) {
            assert(l is Some);
        }
        if l is None {
            assert forall|i: int| 0 <= i < releases.len() implies !failed_on(
                #[trigger] releases[i],
                node,
            ) by {
                if i < n {
                    assert(!failed_on(rest[i], node));
                }
            }
        } else {
            let t = l->Some_0;
            assert forall|i: int|
                0 <= i < releases.len() && failed_on(#[trigger] releases[i], node) implies !before(
                t,
                releases[i].created_at,
            ) by {
                if i < n {
                    assert(failed_on(rest[i], node));
                }
            }
        }
    }
}

proof fn lemma_doubled(n: int, times: nat)
    ensures
        contribute::doubled(n, times) == n * vstd::arithmetic::power2::pow2(times),
    decreases times,
{
    vstd::arithmetic::power2::lemma2_to64();
    if times > 0 {
        lemma_doubled(n, (times - 1) as nat);
        vstd::arithmetic::power2::lemma_pow2_unfold(times);
        let p = vstd::arithmetic::power2::pow2((times - 1) as nat);
        assert(2 * (n * p) == n * (2 * p)) by (nonlinear_arith);
    } else {
        assert(n * 1 == n) by (nonlinear_arith);
    }
}

/// A node leaves a thesis alone exactly where its last failure on it lies less than the cooldown
/// back: the base for one failure, doubled for each further one, and at most an hour. The two points
/// of time do not lie within a leap second.
pub proof fn how_long_a_node_leaves_a_thesis_alone(
    t: ThesisState,
    node: &str,
    base: u64,
    now: Timestamp,
    last: int,
    r: bool,
)
    requires
        call_ensures(contribute::is_crash_cooldown, (&t, node, base, now), r),
        0 <= last < t.releases@.len(),
        failed_on(t.releases@[last], node@),
        now.nanos < 1_000_000_000,
        t.releases@[last].created_at.nanos < 1_000_000_000,
        forall|i: int|
            0 <= i < t.releases@.len() && failed_on(#[trigger] t.releases@[i], node@) ==> !before(
                t.releases@[last].created_at,
                t.releases@[i].created_at,
            ),
    ensures
        ({
            let n = t.releases@.filter(|x: ReleaseRecord| failed_on(x, node@)).len();
            let at = t.releases@[last].created_at;
            let gone = (now.secs - at.secs) * 1_000_000_000 + (now.nanos - at.nanos);
            &&& n > 0
            &&& r <==> gone < base * vstd::arithmetic::power2::pow2((n - 1) as nat) * 1_000_000_000
                && gone < 3600 * 1_000_000_000
        }),
{
    let releases = t.releases@;
    lemma_crash_count(releases, node@);
    lemma_last_crash(releases, node@);
    let l = contribute::last_crash(releases, node@)->Some_0;
    let i = choose|i: int|
        0 <= i < releases.len() && failed_on(#[trigger] releases[i], node@)
            && releases[i].created_at == l;
    assert(!before(releases[last].created_at, releases[i].created_at));
    assert(!before(l, releases[last].created_at));
    releases.lemma_filter_contains(|x: ReleaseRecord| failed_on(x, node@), last);
    let n = contribute::crashes(releases, node@);
    lemma_doubled(base as int, (n - 1) as nat);
}

/// A node that has not failed on a thesis does not leave it alone.
pub proof fn no_failure_no_cooldown(
    t: ThesisState,
    node: &str,
    base: u64,
    now: Timestamp,
    r: bool,
)
    requires
        call_ensures(contribute::is_crash_cooldown, (&t, node, base, now), r),
        forall|i: int| 0 <= i < t.releases@.len() ==> !failed_on(#[trigger] t.releases@[i], node@),
    ensures
        !r,
{
    lemma_last_crash(t.releases@, node@);
}

proof fn lemma_offered(theses: Seq<ThesisState>, node: Seq<char>, base: u64, now: Timestamp)
    ensures
        contribute::offered(theses, node, base, now) == theses.filter(
            |t: ThesisState| free_for(t, node) && !contribute::cools_down(t, node, base, now),
        ),
    decreases theses.len(),
{
    reveal(Seq::filter);
    if theses.len() > 0 {
        lemma_offered(theses.drop_last(), node, base, now);
    }
}

/// A contributor is offered exactly the theses that are free for it and that it does not leave alone,
/// in their order. `alone` says of each thesis whether it does.
pub proof fn what_a_contributor_is_offered(
    s: RepositoryState,
    node: &str,
    base: u64,
    now: Timestamp,
    r: Vec<&ThesisState>,
    i: int,
    alone: bool,
)
    requires
        call_ensures(contribute::claimable_theses, (&s, node, base, now), r),
        0 <= i < s.theses@.len(),
        call_ensures(contribute::is_crash_cooldown, (&s.theses@[i], node, base, now), alone),
    ensures
        r@.contains(&s.theses@[i]) <==> free_for(s.theses@[i], node@) && !alone,
        r@.len() <= s.theses@.len(),
{
    let p = |t: ThesisState|
        free_for(t, node@) && !contribute::cools_down(t, node@, base, now);
    lemma_offered(s.theses@, node@, base, now);
    let kept = s.theses@.filter(p);
    s.theses@.lemma_filter_len(p);
    let v = r@.map_values(|t: &ThesisState| *t);
    assert(v == kept);
    assert(v.len() == r@.len());
    if p(s.theses@[i]) {
        s.theses@.lemma_filter_contains(p, i);
        let k = choose|k: int| 0 <= k < kept.len() && kept[k] == s.theses@[i];
        assert(v[k] == *r@[k]);
        assert(r@[k] == &s.theses@[i]);
    }
    if r@.contains(&s.theses@[i]) {
        let k = choose|k: int| 0 <= k < r@.len() && r@[k] == &s.theses@[i];
        assert(v[k] == s.theses@[i]);
        s.theses@.lemma_filter_pred(p, k);
    }
}

/// What a contributor does after its agent: it stops exactly where the agent did not fail, and else
/// gives up where the agent was to run once, and starts it again where not.
pub proof fn what_follows_an_agent(
    failure: Option<String>,
    once: bool,
    secs: u64,
    r: (Vec<String>, ContributeAction),
)
    requires
        call_ensures(contribute::after_agent, (failure, once, secs), r),
    ensures
        r.1 is Stop <==> failure is None,
        r.1 is Fail <==> failure is Some && once,
        r.1 is Pause <==> failure is Some && !once,
        r.1 matches ContributeAction::Fail { message } ==> failure == Some(message),
{
}

proof fn lemma_improvement(t: ThesisState, branch: Seq<char>, from: int)
    requires
        0 <= from,
        forall|j: int|
            0 <= j < from && j < t.attempts@.len() ==> !((#[trigger] t.attempts@[j]).branch@
                == branch && t.attempts@[j].observation == Observation::Improved),
    ensures
        match submit::improvement_at(t.attempts@, branch, from) {
            Some(i) => first_improvement(t, branch, i),
            None => forall|j: int|
                0 <= j < t.attempts@.len() ==> !((#[trigger] t.attempts@[j]).branch@ == branch
                    && t.attempts@[j].observation == Observation::Improved),
        },
    decreases t.attempts@.len() - from,
{
    if from < t.attempts@.len() && !(t.attempts@[from].branch@ == branch
        && t.attempts@[from].observation == Observation::Improved) {
        lemma_improvement(t, branch, from + 1);
    }
}

/// The attempt at the place is the first improvement on the branch.
pub open spec fn first_improvement(t: ThesisState, branch: Seq<char>, i: int) -> bool {
    &&& 0 <= i < t.attempts@.len()
    &&& t.attempts@[i].branch@ == branch
    &&& t.attempts@[i].observation == Observation::Improved
    &&& forall|j: int|
        0 <= j < i ==> !((#[trigger] t.attempts@[j]).branch@ == branch
            && t.attempts@[j].observation == Observation::Improved)
}

/// A branch may be submitted exactly where an improvement was recorded on it and none of its
/// candidates is open; what is submitted is the first improvement on it.
pub proof fn what_may_be_submitted(
    t: ThesisState,
    branch: &str,
    number: u64,
    r: Result<&AttemptRecord, String>,
)
    requires
        call_ensures(submit::submittable_attempt, (&t, branch, number), r),
    ensures
        r is Ok <==> (exists|i: int|
            0 <= i < t.attempts@.len() && (#[trigger] t.attempts@[i]).branch@ == branch@
                && t.attempts@[i].observation == Observation::Improved) && (forall|k: int|
            0 <= k < t.pull_requests@.len() ==> (#[trigger] t.pull_requests@[k]).pr.head_ref_name@
                != branch@ || t.pull_requests@[k].pr.state@ != "OPEN"@),
        r matches Ok(a) ==> exists|i: int| #[trigger] first_improvement(t, branch@, i) && *a
            == t.attempts@[i],
{
    lemma_improvement(t, branch@, 0);
    if submit::improvement_at(t.attempts@, branch@, 0) is Some {
        let i = submit::improvement_at(t.attempts@, branch@, 0)->Some_0;
        assert(first_improvement(t, branch@, i));
        assert(t.attempts@[i].branch@ == branch@);
    }
}

} // verus!
