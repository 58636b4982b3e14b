//! What holds of every report of duties.
use crate::commands::duties;
use crate::commands::duties::{DutyContext, DutyItem, DutyReport, DutyView, MetricFloor};
use crate::comments::{Observation, ReleaseReason};
use crate::config::ProtocolConfig;
use crate::laws::decisions;
use crate::laws::theses::before;
use crate::ledger::Ledger;
use crate::state::{
    AttemptRecord, PullRequestState, ReleaseRecord, RepositoryState, ThesisPhase, ThesisState,
};
use crate::text;
use crate::time::Timestamp;
use vstd::prelude::*;

verus! {

/// The commands of the things to do of a category, in their order.
pub open spec fn commands(items: Seq<DutyItem>, category: Seq<char>) -> Seq<Seq<char>> {
    items.filter(|d: DutyItem| d.category@ == category).map_values(|d: DutyItem| d.command@)
}

/// The candidates of all theses, in their order.
pub open spec fn candidates(s: RepositoryState) -> Seq<PullRequestState> {
    s.theses@.map_values(|t: ThesisState| t.pull_requests@).flatten()
}

/// The login is that of the lead.
pub open spec fn leads(login: Seq<char>, config: ProtocolConfig) -> bool {
    config.lead_github_login matches Some(l) && l@ == login
}

/// The candidate is open, and nothing was decided of it.
pub open spec fn open_and_undecided(p: PullRequestState) -> bool {
    p.pr.state@ == "OPEN"@ && p.decision is None
}

spec fn picked(items: Seq<DutyView>, category: Seq<char>) -> Seq<Seq<char>> {
    items.filter(|d: DutyView| d.category == category).map_values(|d: DutyView| d.command)
}

proof fn lemma_picked(items: Seq<DutyItem>, category: Seq<char>)
    ensures
        commands(items, category) == picked(duties::duty_views(items), category),
    decreases items.len(),
{
    reveal(Seq::filter);
    let v = duties::duty_views(items);
    if items.len() > 0 {
        let rest = items.drop_last();
        lemma_picked(rest, category);
        assert(duties::duty_views(rest) =~= v.drop_last());
        assert(v.last() == items.last()@);
        let f = rest.filter(|d: DutyItem| d.category@ == category);
        let g = v.drop_last().filter(|d: DutyView| d.category == category);
        if items.last().category@ == category {
            assert(f.push(items.last()).map_values(|d: DutyItem| d.command@) =~= f.map_values(
                |d: DutyItem| d.command@,
            ).push(items.last().command@));
            assert(g.push(v.last()).map_values(|d: DutyView| d.command) =~= g.map_values(
                |d: DutyView| d.command,
            ).push(v.last().command));
        }
    } else {
        assert(v =~= Seq::empty());
        assert(commands(items, category) =~= Seq::empty());
        assert(picked(v, category) =~= Seq::empty());
    }
}

proof fn lemma_picked_add(a: Seq<DutyView>, b: Seq<DutyView>, category: Seq<char>)
    ensures
        picked(a + b, category) == picked(a, category) + picked(b, category),
{
    let p = |d: DutyView| d.category == category;
    Seq::filter_distributes_over_add(a, b, p);
    assert((a.filter(p) + b.filter(p)).map_values(|d: DutyView| d.command) =~= a.filter(
        p,
    ).map_values(|d: DutyView| d.command) + b.filter(p).map_values(|d: DutyView| d.command));
}

proof fn lemma_picked_push(a: Seq<DutyView>, d: DutyView, category: Seq<char>)
    ensures
        picked(a.push(d), category) == (if d.category == category {
            picked(a, category).push(d.command)
        } else {
            picked(a, category)
        }),
{
    reveal(Seq::filter);
    let p = |x: DutyView| x.category == category;
    assert(a.push(d).drop_last() =~= a);
    assert(a.filter(p).push(d).map_values(|x: DutyView| x.command) =~= a.filter(p).map_values(
        |x: DutyView| x.command,
    ).push(d.command));
}

proof fn lemma_picked_none(category: Seq<char>)
    ensures
        picked(Seq::empty(), category) == Seq::<Seq<char>>::empty(),
{
    reveal(Seq::filter);
    assert(picked(Seq::empty(), category) =~= Seq::empty());
}

/// What is gathered of a category comes from the items that give it.
proof fn lemma_gathered<T>(
    items: Seq<T>,
    f: spec_fn(T) -> Option<DutyView>,
    category: Seq<char>,
    q: spec_fn(T) -> bool,
    c: spec_fn(T) -> Seq<char>,
)
    requires
        forall|x: T|
            #![trigger f(x)]
            #![trigger q(x)]
            (f(x) is Some && f(x)->Some_0.category == category) <==> q(x),
        forall|x: T|
            #![trigger f(x)]
            #![trigger q(x)]
            q(x) ==> f(x)->Some_0.command == c(x),
    ensures
        picked(duties::gathered(items, f), category) == items.filter(q).map_values(c),
    decreases items.len(),
{
    reveal(Seq::filter);
    if items.len() > 0 {
        let rest = items.drop_last();
        let x = items.last();
        lemma_gathered(rest, f, category, q, c);
        let g = duties::gathered(rest, f);
        if f(x) is Some {
            lemma_picked_push(g, f(x)->Some_0, category);
        }
        assert(q(x) <==> f(x) is Some && f(x)->Some_0.category == category);
        assert(rest.filter(q).push(x).map_values(c) =~= rest.filter(q).map_values(c).push(c(x)));
    } else {
        lemma_picked_none(category);
        assert(items.filter(q).map_values(c) =~= Seq::empty());
    }
}

proof fn lemma_gathered_add(
    a: Seq<PullRequestState>,
    b: Seq<PullRequestState>,
    f: spec_fn(PullRequestState) -> Option<DutyView>,
)
    ensures
        duties::gathered(a + b, f) == duties::gathered(a, f) + duties::gathered(b, f),
    decreases b.len(),
{
    if b.len() > 0 {
        lemma_gathered_add(a, b.drop_last(), f);
        assert((a + b).drop_last() =~= a + b.drop_last());
        assert((a + b).last() == b.last());
        assert(duties::gathered(a + b, f) =~= duties::gathered(a, f) + duties::gathered(b, f));
    } else {
        assert(a + b =~= a);
        assert(duties::gathered(a, f) + duties::gathered(b, f) =~= duties::gathered(a, f));
    }
}

proof fn lemma_candidates(
    theses: Seq<ThesisState>,
    f: spec_fn(PullRequestState) -> Option<DutyView>,
)
    ensures
        duties::gathered_candidates(theses, f) == duties::gathered(
            theses.map_values(|t: ThesisState| t.pull_requests@).flatten(),
            f,
        ),
    decreases theses.len(),
{
    let prs = |t: ThesisState| t.pull_requests@;
    if theses.len() > 0 {
        let rest = theses.drop_last();
        lemma_candidates(rest, f);
        assert(theses.map_values(prs) =~= rest.map_values(prs).push(prs(theses.last())));
        rest.map_values(prs).lemma_flatten_push(prs(theses.last()));
        lemma_gathered_add(rest.map_values(prs).flatten(), prs(theses.last()), f);
    } else {
        assert(theses.map_values(prs) =~= Seq::empty());
    }
}

proof fn lemma_offers(theses: Seq<ThesisState>, node: Seq<char>, login: Seq<char>)
    ensures
        duties::review_offers(theses, node, login) == duties::gathered(
            theses.filter(|t: ThesisState| t.phase == ThesisPhase::InReview).map_values(
                |t: ThesisState| t.pull_requests@,
            ).flatten(),
            |p: PullRequestState| duties::review_offer(p, node, login),
        ),
    decreases theses.len(),
{
    reveal(Seq::filter);
    let prs = |t: ThesisState| t.pull_requests@;
    let inside = |t: ThesisState| t.phase == ThesisPhase::InReview;
    let f = |p: PullRequestState| duties::review_offer(p, node, login);
    if theses.len() > 0 {
        let rest = theses.drop_last();
        let t = theses.last();
        lemma_offers(rest, node, login);
        let kept = rest.filter(inside);
        if inside(t) {
            assert(kept.push(t).map_values(prs) =~= kept.map_values(prs).push(prs(t)));
            kept.map_values(prs).lemma_flatten_push(prs(t));
            lemma_gathered_add(kept.map_values(prs).flatten(), prs(t), f);
        }
    } else {
        assert(theses.filter(inside).map_values(prs) =~= Seq::empty());
    }
}

proof fn lemma_categories()
    ensures
        "submit"@.len() == 6 && "submit"@[0] == 's',
        "release"@.len() == 7 && "release"@[0] == 'r',
        "policy-check"@.len() == 12 && "policy-check"@[0] == 'p',
        "decide"@.len() == 6 && "decide"@[0] == 'd',
        "sync"@.len() == 4 && "sync"@[0] == 's',
        "attempt"@.len() == 7 && "attempt"@[0] == 'a',
        "maintainer-approval"@.len() == 19,
        "queue"@.len() == 5,
        "metric-floor"@.len() == 12 && "metric-floor"@[0] == 'm',
        "stale-queue"@.len() == 11,
        "review"@.len() == 6 && "review"@[0] == 'r',
        "idle"@.len() == 4 && "idle"@[0] == 'i',
        "awaiting-approval"@.len() == 17 && "awaiting-approval"@[0] == 'a',
        "no-claimable-work"@.len() == 17 && "no-claimable-work"@[0] == 'n',
{
    reveal_strlit("submit");
    reveal_strlit("release");
    reveal_strlit("policy-check");
    reveal_strlit("decide");
    reveal_strlit("sync");
    reveal_strlit("attempt");
    reveal_strlit("maintainer-approval");
    reveal_strlit("queue");
    reveal_strlit("metric-floor");
    reveal_strlit("stale-queue");
    reveal_strlit("review");
    reveal_strlit("idle");
    reveal_strlit("awaiting-approval");
    reveal_strlit("no-claimable-work");
}

/// The node made the attempt while it held the thesis.
pub open spec fn made_by(t: ThesisState, a: AttemptRecord, node: Seq<char>) -> bool {
    exists|i: int|
        0 <= i < t.active_claims@.len() && (#[trigger] t.active_claims@[i]).node@ == node
            && !before(a.created_at, t.active_claims@[i].created_at)
}

/// The node holds the open thesis.
pub open spec fn holds(t: ThesisState, node: Seq<char>) -> bool {
    t.issue.state@ == "OPEN"@ && exists|i: int|
        0 <= i < t.active_claims@.len() && (#[trigger] t.active_claims@[i]).node@ == node
}

/// The node holds the open thesis, and has improved on it without a candidate that is open or
/// merged.
pub open spec fn owes_a_candidate(t: ThesisState, node: Seq<char>) -> bool {
    &&& holds(t, node)
    &&& exists|i: int|
        0 <= i < t.attempts@.len() && (#[trigger] t.attempts@[i]).observation
            == Observation::Improved && made_by(t, t.attempts@[i], node)
    &&& forall|i: int|
        0 <= i < t.pull_requests@.len() ==> (#[trigger] t.pull_requests@[i]).pr.state@ != "OPEN"@
            && t.pull_requests@[i].pr.state@ != "MERGED"@
}

/// When the node claimed the thesis: the time of its first claim that still stands.
pub open spec fn claimed_since(t: ThesisState, node: Seq<char>, since: Timestamp) -> bool {
    exists|i: int|
        0 <= i < t.active_claims@.len() && (#[trigger] t.active_claims@[i]).node@ == node
            && t.active_claims@[i].created_at == since && forall|j: int|
            0 <= j < i ==> (#[trigger] t.active_claims@[j]).node@ != node
}

/// Candidates of the thesis were turned down at least twice since the node claimed it.
pub open spec fn turned_down_twice(t: ThesisState, node: Seq<char>) -> bool {
    exists|since: Timestamp| #[trigger]
        claimed_since(t, node, since) && decisions::turned_down_since(
            t.pull_requests@,
            Some(since),
        ).len() >= 2
}

proof fn lemma_start(t: ThesisState, node: Seq<char>, from: int)
    requires
        0 <= from,
        forall|j: int|
            0 <= j < from && j < t.active_claims@.len() ==> (
            #[trigger] t.active_claims@[j]).node@ != node,
    ensures
        duties::claim_start(t.active_claims@, node, from) matches Some(since) ==> claimed_since(
            t,
            node,
            since,
        ),
        (exists|i: int|
            0 <= i < t.active_claims@.len() && (#[trigger] t.active_claims@[i]).node@ == node)
            ==> duties::claim_start(t.active_claims@, node, from) is Some,
    decreases t.active_claims@.len() - from,
{
    if from < t.active_claims@.len() && t.active_claims@[from].node@ != node {
        lemma_start(t, node, from + 1);
    }
}

proof fn lemma_claim(t: ThesisState, node: Seq<char>)
    ensures
        duties::holds_thesis(t, node) <==> holds(t, node),
        duties::claim_demand(t, node) is Some <==> owes_a_candidate(t, node),
        owes_a_candidate(t, node) ==> (duties::claim_demand(t, node)->Some_0.category
            == "release"@ <==> turned_down_twice(t, node)),
        owes_a_candidate(t, node) ==> duties::claim_demand(t, node)->Some_0.category == "release"@
            || duties::claim_demand(t, node)->Some_0.category == "submit"@,
        duties::has_attempt(t, node) <==> exists|i: int|
            0 <= i < t.attempts@.len() && made_by(t, #[trigger] t.attempts@[i], node),
{
    lemma_categories();
    assert forall|a: AttemptRecord| duties::made_under_claim(t.active_claims@, a, node)
        == #[trigger] made_by(t, a, node) by {
        if made_by(t, a, node) {
            let i = choose|i: int|
                0 <= i < t.active_claims@.len() && (#[trigger] t.active_claims@[i]).node@ == node
                    && !before(a.created_at, t.active_claims@[i].created_at);
            assert(!a.created_at.earlier(t.active_claims@[i].created_at));
        }
        if duties::made_under_claim(t.active_claims@, a, node) {
            let i = choose|i: int|
                0 <= i < t.active_claims@.len() && (#[trigger] t.active_claims@[i]).node@ == node
                    && !a.created_at.earlier(t.active_claims@[i].created_at);
            assert(!before(a.created_at, t.active_claims@[i].created_at));
        }
    }
    assert(duties::has_improved(t, node) <==> exists|i: int|
        0 <= i < t.attempts@.len() && (#[trigger] t.attempts@[i]).observation
            == Observation::Improved && made_by(t, t.attempts@[i], node)) by {
        if duties::has_improved(t, node) {
            let i = choose|i: int|
                0 <= i < t.attempts@.len() && duties::made_under_claim(
                    t.active_claims@,
                    #[trigger] t.attempts@[i],
                    node,
                ) && t.attempts@[i].observation == Observation::Improved;
            assert(made_by(t, t.attempts@[i], node));
        }
        if exists|i: int|
            0 <= i < t.attempts@.len() && (#[trigger] t.attempts@[i]).observation
                == Observation::Improved && made_by(t, t.attempts@[i], node) {
            let i = choose|i: int|
                0 <= i < t.attempts@.len() && (#[trigger] t.attempts@[i]).observation
                    == Observation::Improved && made_by(t, t.attempts@[i], node);
            assert(duties::made_under_claim(t.active_claims@, t.attempts@[i], node));
        }
    }
    assert(duties::has_attempt(t, node) <==> exists|i: int|
        0 <= i < t.attempts@.len() && made_by(t, #[trigger] t.attempts@[i], node)) by {
        if duties::has_attempt(t, node) {
            let i = choose|i: int|
                0 <= i < t.attempts@.len() && duties::made_under_claim(
                    t.active_claims@,
                    #[trigger] t.attempts@[i],
                    node,
                );
            assert(made_by(t, t.attempts@[i], node));
        }
        if exists|i: int| 0 <= i < t.attempts@.len() && made_by(t, #[trigger] t.attempts@[i], node) {
            let i = choose|i: int|
                0 <= i < t.attempts@.len() && made_by(t, #[trigger] t.attempts@[i], node);
            assert(duties::made_under_claim(t.active_claims@, t.attempts@[i], node));
        }
    }
    if holds(t, node) {
        lemma_start(t, node, 0);
        let since = duties::claim_start(t.active_claims@, node, 0)->Some_0;
        decisions::rejections_are_counted(t.pull_requests@, Some(since));
        assert(claimed_since(t, node, since));
        assert forall|other: Timestamp| #[trigger] claimed_since(t, node, other) implies other
            == since by {
            let i = choose|i: int|
                0 <= i < t.active_claims@.len() && (#[trigger] t.active_claims@[i]).node@ == node
                    && t.active_claims@[i].created_at == since && forall|j: int|
                    0 <= j < i ==> (#[trigger] t.active_claims@[j]).node@ != node;
            let k = choose|i: int|
                0 <= i < t.active_claims@.len() && (#[trigger] t.active_claims@[i]).node@ == node
                    && t.active_claims@[i].created_at == other && forall|j: int|
                    0 <= j < i ==> (#[trigger] t.active_claims@[j]).node@ != node;
            if i < k {
                assert(t.active_claims@[i].node@ != node);
            } else if k < i {
                assert(t.active_claims@[k].node@ != node);
            }
        }
    }
}

/// In the lead's report, every open and undecided candidate without a policy pass is to be checked:
/// each has its one blocking item of that category, whose command names its number, in the order of
/// the candidates, and there are no others.
pub proof fn every_unchecked_candidate_is_to_be_checked(
    s: RepositoryState,
    config: ProtocolConfig,
    ledger: Ledger,
    floor: Option<MetricFloor>,
    node: &str,
    login: &str,
    r: DutyReport,
)
    requires
        call_ensures(
            duties::check,
            (&s, &config, &ledger, &floor, node, login, DutyContext::Lead),
            r,
        ),
        leads(login@, config),
    ensures
        commands(r.blocking@, "policy-check"@) == candidates(s).filter(
            |p: PullRequestState| open_and_undecided(p) && !p.policy_pass,
        ).map_values(
            |p: PullRequestState|
                "polyresearch policy-check "@ + text::decimal(p.pr.number as nat),
        ),
{
    lemma_categories();
    let category = "policy-check"@;
    let f = |p: PullRequestState| duties::candidate_demand(p, config);
    let q = |p: PullRequestState| open_and_undecided(p) && !p.policy_pass;
    let c = |p: PullRequestState|
        "polyresearch policy-check "@ + text::decimal(p.pr.number as nat);
    lemma_lead_blocking(s, config, ledger, floor, node, login, r, category, f);
    lemma_gathered(candidates(s), f, category, q, c);
}

proof fn lemma_lead_blocking(
    s: RepositoryState,
    config: ProtocolConfig,
    ledger: Ledger,
    floor: Option<MetricFloor>,
    node: &str,
    login: &str,
    r: DutyReport,
    category: Seq<char>,
    f: spec_fn(PullRequestState) -> Option<DutyView>,
)
    requires
        call_ensures(
            duties::check,
            (&s, &config, &ledger, &floor, node, login, DutyContext::Lead),
            r,
        ),
        leads(login@, config),
        f == (|p: PullRequestState| duties::candidate_demand(p, config)),
        category == "policy-check"@ || category == "decide"@,
    ensures
        commands(r.blocking@, category) == picked(
            duties::gathered(candidates(s), f),
            category,
        ),
{
    lemma_categories();
    lemma_picked(r.blocking@, category);
    let own = duties::gathered(s.theses@, |t: ThesisState| duties::claim_demand(t, node@));
    let led = duties::gathered_candidates(s.theses@, f);
    let last = duties::sync_demand(ledger.current(s));
    assert(duties::duty_views(r.blocking@) =~= own + (led + last));
    lemma_picked_add(own, led + last, category);
    lemma_picked_add(led, last, category);
    lemma_candidates(s.theses@, f);
    lemma_gathered(
        s.theses@,
        |t: ThesisState| duties::claim_demand(t, node@),
        category,
        |t: ThesisState| false,
        |t: ThesisState| Seq::<char>::empty(),
    );
    assert(s.theses@.filter(|t: ThesisState| false).len() == 0) by {
        lemma_none_kept(s.theses@);
    }
    lemma_picked_none(category);
    if !ledger.current(s) {
        lemma_picked_push(Seq::empty(), last[0], category);
        assert(Seq::empty().push(last[0]) =~= last);
    }
    assert(picked(own, category) =~= Seq::empty());
    assert(picked(last, category) =~= Seq::empty());
}

proof fn lemma_none_kept(theses: Seq<ThesisState>)
    ensures
        theses.filter(|t: ThesisState| false).len() == 0,
    decreases theses.len(),
{
    reveal(Seq::filter);
    if theses.len() > 0 {
        lemma_none_kept(theses.drop_last());
    }
}

/// The candidate is ready for a decision: it has passed the policy check, has the maintainer's
/// approval where candidates are not approved by themselves, and has its reviews.
pub open spec fn ready_for_decision(p: PullRequestState, config: ProtocolConfig) -> bool {
    &&& open_and_undecided(p)
    &&& p.policy_pass
    &&& !config.auto_approve ==> p.maintainer_approved
    &&& p.reviews@.len() >= config.required_confirmations
}

/// In the lead's report, every candidate that is ready for it is to be decided, each by its number
/// and in the order of the candidates, and no other one.
pub proof fn every_ready_candidate_is_to_be_decided(
    s: RepositoryState,
    config: ProtocolConfig,
    ledger: Ledger,
    floor: Option<MetricFloor>,
    node: &str,
    login: &str,
    r: DutyReport,
)
    requires
        call_ensures(
            duties::check,
            (&s, &config, &ledger, &floor, node, login, DutyContext::Lead),
            r,
        ),
        leads(login@, config),
    ensures
        commands(r.blocking@, "decide"@) == candidates(s).filter(
            |p: PullRequestState| ready_for_decision(p, config),
        ).map_values(
            |p: PullRequestState| "polyresearch decide "@ + text::decimal(p.pr.number as nat),
        ),
{
    lemma_categories();
    let category = "decide"@;
    let f = |p: PullRequestState| duties::candidate_demand(p, config);
    let q = |p: PullRequestState| ready_for_decision(p, config);
    let c = |p: PullRequestState| "polyresearch decide "@ + text::decimal(p.pr.number as nat);
    lemma_lead_blocking(s, config, ledger, floor, node, login, r, category, f);
    lemma_gathered(candidates(s), f, category, q, c);
}

/// The things that a report demands: of whoever holds theses, and of the lead in the lead's role.
proof fn lemma_blocking(
    s: RepositoryState,
    config: ProtocolConfig,
    ledger: Ledger,
    floor: Option<MetricFloor>,
    node: &str,
    login: &str,
    context: DutyContext,
    r: DutyReport,
    category: Seq<char>,
)
    requires
        call_ensures(duties::check, (&s, &config, &ledger, &floor, node, login, context), r),
        category == "submit"@ || category == "release"@ || category == "sync"@,
    ensures
        commands(r.blocking@, category) == picked(
            duties::gathered(s.theses@, |t: ThesisState| duties::claim_demand(t, node@)),
            category,
        ) + (if leads(login@, config) && context == DutyContext::Lead {
            picked(duties::sync_demand(ledger.current(s)), category)
        } else {
            Seq::empty()
        }),
{
    lemma_categories();
    lemma_picked(r.blocking@, category);
    let own = duties::gathered(s.theses@, |t: ThesisState| duties::claim_demand(t, node@));
    let f = |p: PullRequestState| duties::candidate_demand(p, config);
    let led = duties::gathered_candidates(s.theses@, f);
    let last = duties::sync_demand(ledger.current(s));
    if leads(login@, config) && context == DutyContext::Lead {
        assert(duties::duty_views(r.blocking@) =~= own + (led + last));
        lemma_picked_add(own, led + last, category);
        lemma_picked_add(led, last, category);
        lemma_candidates(s.theses@, f);
        lemma_gathered(
            candidates(s),
            f,
            category,
            |p: PullRequestState| false,
            |p: PullRequestState| Seq::<char>::empty(),
        );
        lemma_no_candidate_kept(candidates(s));
        assert(picked(led, category) =~= Seq::empty());
        assert(picked(own + (led + last), category) =~= picked(own, category) + picked(
            last,
            category,
        ));
    } else {
        assert(duties::duty_views(r.blocking@) =~= own);
        assert(picked(own, category) + Seq::<Seq<char>>::empty() =~= picked(own, category));
    }
}

proof fn lemma_no_candidate_kept(prs: Seq<PullRequestState>)
    ensures
        prs.filter(|p: PullRequestState| false).len() == 0,
    decreases prs.len(),
{
    reveal(Seq::filter);
    if prs.len() > 0 {
        lemma_no_candidate_kept(prs.drop_last());
    }
}

/// Every open thesis that the node holds and has improved on, without a candidate that is open or
/// merged, is to be submitted, or to be released where its candidates were turned down twice since
/// it was claimed; each by its number and in the order of the theses. This holds of every node, in
/// both roles.
pub proof fn every_improvement_is_to_be_submitted(
    s: RepositoryState,
    config: ProtocolConfig,
    ledger: Ledger,
    floor: Option<MetricFloor>,
    node: &str,
    login: &str,
    context: DutyContext,
    r: DutyReport,
)
    requires
        call_ensures(duties::check, (&s, &config, &ledger, &floor, node, login, context), r),
    ensures
        commands(r.blocking@, "submit"@) == s.theses@.filter(
            |t: ThesisState| owes_a_candidate(t, node@) && !turned_down_twice(t, node@),
        ).map_values(
            |t: ThesisState| "polyresearch submit "@ + text::decimal(t.issue.number as nat),
        ),
        commands(r.blocking@, "release"@) == s.theses@.filter(
            |t: ThesisState| owes_a_candidate(t, node@) && turned_down_twice(t, node@),
        ).map_values(
            |t: ThesisState|
                "polyresearch release "@ + text::decimal(t.issue.number as nat)
                    + " --reason no_improvement"@,
        ),
{
    lemma_categories();
    let f = |t: ThesisState| duties::claim_demand(t, node@);
    let q = |t: ThesisState| owes_a_candidate(t, node@) && !turned_down_twice(t, node@);
    let c = |t: ThesisState| "polyresearch submit "@ + text::decimal(t.issue.number as nat);
    let q2 = |t: ThesisState| owes_a_candidate(t, node@) && turned_down_twice(t, node@);
    let c2 = |t: ThesisState|
        "polyresearch release "@ + text::decimal(t.issue.number as nat)
            + " --reason no_improvement"@;
    let last = duties::sync_demand(ledger.current(s));
    lemma_blocking(s, config, ledger, floor, node, login, context, r, "submit"@);
    lemma_blocking(s, config, ledger, floor, node, login, context, r, "release"@);
    assert forall|t: ThesisState|
        #![trigger f(t)]
        #![trigger q(t)]
        ((f(t) is Some && f(t)->Some_0.category == "submit"@) <==> q(t)) && (q(t)
            ==> f(t)->Some_0.command == c(t)) by {
        lemma_claim(t, node@);
    }
    lemma_gathered(s.theses@, f, "submit"@, q, c);
    assert forall|t: ThesisState|
        #![trigger f(t)]
        #![trigger q2(t)]
        ((f(t) is Some && f(t)->Some_0.category == "release"@) <==> q2(t)) && (q2(t)
            ==> f(t)->Some_0.command == c2(t)) by {
        lemma_claim(t, node@);
    }
    lemma_gathered(s.theses@, f, "release"@, q2, c2);
    lemma_picked_none("submit"@);
    lemma_picked_none("release"@);
    if !ledger.current(s) {
        lemma_picked_push(Seq::empty(), last[0], "submit"@);
        lemma_picked_push(Seq::empty(), last[0], "release"@);
        assert(Seq::empty().push(last[0]) =~= last);
    }
    assert(picked(duties::gathered(s.theses@, f), "submit"@) + Seq::<Seq<char>>::empty() =~= picked(
        duties::gathered(s.theses@, f),
        "submit"@,
    ));
    assert(picked(duties::gathered(s.theses@, f), "release"@) + Seq::<Seq<char>>::empty()
        =~= picked(duties::gathered(s.theses@, f), "release"@));
}

/// The lead, in the lead's role, is to bring the ledger up to date exactly where an attempt that
/// has come to an end has no row.
pub proof fn a_stale_ledger_is_to_be_synced(
    s: RepositoryState,
    config: ProtocolConfig,
    ledger: Ledger,
    floor: Option<MetricFloor>,
    node: &str,
    login: &str,
    context: DutyContext,
    r: DutyReport,
    current: bool,
)
    requires
        call_ensures(duties::check, (&s, &config, &ledger, &floor, node, login, context), r),
        call_ensures(Ledger::is_current, (&ledger, &s), current),
    ensures
        commands(r.blocking@, "sync"@) == (if leads(login@, config) && context == DutyContext::Lead
            && !current {
            seq!["polyresearch sync"@]
        } else {
            Seq::empty()
        }),
{
    lemma_categories();
    let f = |t: ThesisState| duties::claim_demand(t, node@);
    let last = duties::sync_demand(ledger.current(s));
    lemma_blocking(s, config, ledger, floor, node, login, context, r, "sync"@);
    lemma_gathered(
        s.theses@,
        f,
        "sync"@,
        |t: ThesisState| false,
        |t: ThesisState| Seq::<char>::empty(),
    );
    lemma_none_kept(s.theses@);
    lemma_picked_none("sync"@);
    if !ledger.current(s) {
        lemma_picked_push(Seq::empty(), last[0], "sync"@);
        assert(Seq::empty().push(last[0]) =~= last);
    }
    assert(picked(duties::gathered(s.theses@, f), "sync"@) =~= Seq::empty());
    assert(commands(r.blocking@, "sync"@) =~= (if leads(login@, config) && context
        == DutyContext::Lead && !current {
        seq!["polyresearch sync"@]
    } else {
        Seq::empty()
    }));
}

proof fn lemma_given<T>(items: Seq<T>, f: spec_fn(T) -> Option<DutyView>)
    ensures
        forall|k: int|
            0 <= k < duties::gathered(items, f).len() ==> exists|i: int|
                0 <= i < items.len() && f(#[trigger] items[i]) == Some(
                    #[trigger] duties::gathered(items, f)[k],
                ),
        duties::gathered(items, f).len() == 0 <==> forall|i: int|
            0 <= i < items.len() ==> f(#[trigger] items[i]) is None,
    decreases items.len(),
{
    if items.len() > 0 {
        let rest = items.drop_last();
        let n = items.len() - 1;
        lemma_given(rest, f);
        let g = duties::gathered(rest, f);
        let all = duties::gathered(items, f);
        assert(items[n] == items.last());
        assert forall|k: int| 0 <= k < all.len() implies exists|i: int|
            0 <= i < items.len() && f(#[trigger] items[i]) == Some(#[trigger] all[k]) by {
            if k < g.len() {
                assert(all[k] == g[k]);
                let i = choose|i: int| 0 <= i < rest.len() && f(#[trigger] rest[i]) == Some(g[k]);
                assert(f(items[i]) == Some(all[k]));
            } else {
                assert(f(items[n]) == Some(all[k]));
            }
        }
        if all.len() == 0 {
            assert forall|i: int| 0 <= i < items.len() implies f(#[trigger] items[i]) is None by {
                if i < n {
                    assert(f(rest[i]) is None);
                }
            }
        }
        if forall|i: int| 0 <= i < items.len() ==> f(#[trigger] items[i]) is None {
            assert forall|i: int| 0 <= i < rest.len() implies f(#[trigger] rest[i]) is None by {
                assert(f(items[i]) is None);
            }
        }
    }
}

/// A report is clean exactly where nothing blocks. For the lead, in the lead's role, this means that
/// no open and undecided candidate lacks its policy check or is ready for a decision, that the
/// ledger lists what has ended, and that no improvement of their own waits to be submitted.
pub proof fn a_clean_report_of_the_lead(
    s: RepositoryState,
    config: ProtocolConfig,
    ledger: Ledger,
    floor: Option<MetricFloor>,
    node: &str,
    login: &str,
    r: DutyReport,
    current: bool,
)
    requires
        call_ensures(
            duties::check,
            (&s, &config, &ledger, &floor, node, login, DutyContext::Lead),
            r,
        ),
        call_ensures(Ledger::is_current, (&ledger, &s), current),
        leads(login@, config),
    ensures
        r.clean <==> r.blocking@.len() == 0,
        r.clean <==> current && (forall|i: int|
            0 <= i < candidates(s).len() ==> {
                let p = #[trigger] candidates(s)[i];
                !(open_and_undecided(p) && !p.policy_pass) && !ready_for_decision(p, config)
            }) && (forall|i: int|
            0 <= i < s.theses@.len() ==> !owes_a_candidate(#[trigger] s.theses@[i], node@)),
{
    let f = |p: PullRequestState| duties::candidate_demand(p, config);
    let g = |t: ThesisState| duties::claim_demand(t, node@);
    lemma_candidates(s.theses@, f);
    lemma_given(candidates(s), f);
    lemma_given(s.theses@, g);
    let own = duties::gathered(s.theses@, g);
    let led = duties::gathered(candidates(s), f);
    let last = duties::sync_demand(ledger.current(s));
    let v = duties::duty_views(r.blocking@);
    assert(v =~= own + (led + last));
    assert(v.len() == r.blocking@.len());
    assert forall|t: ThesisState| #[trigger] g(t) is None <==> !owes_a_candidate(t, node@) by {
        lemma_claim(t, node@);
    }
    assert forall|p: PullRequestState| #[trigger] f(p) is None <==> !(open_and_undecided(p)
        && !p.policy_pass) && !ready_for_decision(p, config) by {}
    assert(led.len() == 0 <==> forall|i: int|
        0 <= i < candidates(s).len() ==> {
            let p = #[trigger] candidates(s)[i];
            !(open_and_undecided(p) && !p.policy_pass) && !ready_for_decision(p, config)
        }) by {
        if led.len() == 0 {
            assert forall|i: int| 0 <= i < candidates(s).len() implies ({
                let p = #[trigger] candidates(s)[i];
                !(open_and_undecided(p) && !p.policy_pass) && !ready_for_decision(p, config)
            }) by {
                assert(f(candidates(s)[i]) is None);
            }
        }
    }
    assert(own.len() == 0 <==> forall|i: int|
        0 <= i < s.theses@.len() ==> !owes_a_candidate(#[trigger] s.theses@[i], node@)) by {
        if own.len() == 0 {
            assert forall|i: int| 0 <= i < s.theses@.len() implies !owes_a_candidate(
                #[trigger] s.theses@[i],
                node@,
            ) by {
                assert(g(s.theses@[i]) is None);
            }
        }
    }
}

/// Whoever is not the lead, or asks as a contributor, is blocked exactly by improvements of their own
/// that wait to be submitted.
pub proof fn a_clean_report_of_a_contributor(
    s: RepositoryState,
    config: ProtocolConfig,
    ledger: Ledger,
    floor: Option<MetricFloor>,
    node: &str,
    login: &str,
    context: DutyContext,
    r: DutyReport,
)
    requires
        call_ensures(duties::check, (&s, &config, &ledger, &floor, node, login, context), r),
        !leads(login@, config) || context == DutyContext::Contribute,
    ensures
        r.clean <==> r.blocking@.len() == 0,
        r.clean <==> forall|i: int|
            0 <= i < s.theses@.len() ==> !owes_a_candidate(#[trigger] s.theses@[i], node@),
{
    let g = |t: ThesisState| duties::claim_demand(t, node@);
    lemma_given(s.theses@, g);
    let own = duties::gathered(s.theses@, g);
    let v = duties::duty_views(r.blocking@);
    assert(v =~= own);
    assert(v.len() == r.blocking@.len());
    assert forall|t: ThesisState| #[trigger] g(t) is None <==> !owes_a_candidate(t, node@) by {
        lemma_claim(t, node@);
    }
    if own.len() == 0 {
        assert forall|i: int| 0 <= i < s.theses@.len() implies !owes_a_candidate(
            #[trigger] s.theses@[i],
            node@,
        ) by {
            assert(g(s.theses@[i]) is None);
        }
    }
}

/// Before a claim a node is asked for its duties as a contributor, the lead too.
pub proof fn the_claim_gate_asks_as_a_contributor(
    s: RepositoryState,
    config: ProtocolConfig,
    ledger: Ledger,
    floor: Option<MetricFloor>,
    node: &str,
    login: &str,
    r: DutyReport,
)
    requires
        call_ensures(duties::claim_gate, (&s, &config, &ledger, &floor, node, login), r),
    ensures
        r.clean <==> r.blocking@.len() == 0,
        r.clean <==> forall|i: int|
            0 <= i < s.theses@.len() ==> !owes_a_candidate(#[trigger] s.theses@[i], node@),
{
    let g = |t: ThesisState| duties::claim_demand(t, node@);
    lemma_given(s.theses@, g);
    let own = duties::gathered(s.theses@, g);
    let v = duties::duty_views(r.blocking@);
    assert(v =~= own);
    assert(v.len() == r.blocking@.len());
    assert forall|t: ThesisState| #[trigger] g(t) is None <==> !owes_a_candidate(t, node@) by {
        lemma_claim(t, node@);
    }
    if own.len() == 0 {
        assert forall|i: int| 0 <= i < s.theses@.len() implies !owes_a_candidate(
            #[trigger] s.theses@[i],
            node@,
        ) by {
            assert(g(s.theses@[i]) is None);
        }
    }
}

/// Things to do stand in the way exactly where there are any.
pub proof fn anything_to_do_stands_in_the_way(
    start: &str,
    items: Vec<DutyItem>,
    r: Result<(), String>,
)
    requires
        call_ensures(duties::ensure_unblocked, (start, &items), r),
    ensures
        r is Ok <==> items@.len() == 0,
{
}

spec fn led(s: RepositoryState, config: ProtocolConfig, floor: Option<MetricFloor>) -> Seq<DutyView> {
    duties::lead_advices(s, config, floor)
}

spec fn idle(
    s: RepositoryState,
    config: ProtocolConfig,
    floor: Option<MetricFloor>,
    node: Seq<char>,
    login: Seq<char>,
) -> Seq<DutyView> {
    match duties::idle_advice(
        s,
        node,
        duties::review_offers(s.theses@, node, login).len() > 0,
        floor,
    ) {
        Some(d) => seq![d],
        None => Seq::empty(),
    }
}

proof fn lemma_advisory(
    s: RepositoryState,
    config: ProtocolConfig,
    ledger: Ledger,
    floor: Option<MetricFloor>,
    node: &str,
    login: &str,
    context: DutyContext,
    r: DutyReport,
    category: Seq<char>,
)
    requires
        call_ensures(duties::check, (&s, &config, &ledger, &floor, node, login, context), r),
    ensures
        ({
            let own = picked(
                duties::gathered(s.theses@, |t: ThesisState| duties::claim_advice(t, node@)),
                category,
            );
            let offers = picked(duties::review_offers(s.theses@, node@, login@), category);
            commands(r.advisory@, category) == (if leads(login@, config) && context
                == DutyContext::Lead {
                own + picked(led(s, config, floor), category) + offers
            } else {
                own + offers + picked(idle(s, config, floor, node@, login@), category)
            })
        }),
{
    lemma_picked(r.advisory@, category);
    let own = duties::gathered(s.theses@, |t: ThesisState| duties::claim_advice(t, node@));
    let offers = duties::review_offers(s.theses@, node@, login@);
    let lead = led(s, config, floor);
    let rest = idle(s, config, floor, node@, login@);
    let v = duties::duty_views(r.advisory@);
    if leads(login@, config) && context == DutyContext::Lead {
        assert(v =~= own + lead + offers);
        lemma_picked_add(own, lead, category);
        lemma_picked_add(own + lead, offers, category);
    } else {
        assert(v =~= own + offers + rest);
        lemma_picked_add(own, offers, category);
        lemma_picked_add(own + offers, rest, category);
    }
}

proof fn lemma_own_elsewhere(s: RepositoryState, node: Seq<char>, category: Seq<char>)
    requires
        category != "attempt"@,
    ensures
        picked(
            duties::gathered(s.theses@, |t: ThesisState| duties::claim_advice(t, node)),
            category,
        ) == Seq::<Seq<char>>::empty(),
{
    lemma_gathered(
        s.theses@,
        |t: ThesisState| duties::claim_advice(t, node),
        category,
        |t: ThesisState| false,
        |t: ThesisState| Seq::<char>::empty(),
    );
    lemma_none_kept(s.theses@);
    assert(s.theses@.filter(|t: ThesisState| false).map_values(
        |t: ThesisState| Seq::<char>::empty(),
    ) =~= Seq::empty());
}

proof fn lemma_offers_elsewhere(
    s: RepositoryState,
    node: Seq<char>,
    login: Seq<char>,
    category: Seq<char>,
)
    requires
        category != "review"@,
    ensures
        picked(duties::review_offers(s.theses@, node, login), category)
            == Seq::<Seq<char>>::empty(),
{
    lemma_offers(s.theses@, node, login);
    let prs = s.theses@.filter(|t: ThesisState| t.phase == ThesisPhase::InReview).map_values(
        |t: ThesisState| t.pull_requests@,
    ).flatten();
    lemma_gathered(
        prs,
        |p: PullRequestState| duties::review_offer(p, node, login),
        category,
        |p: PullRequestState| false,
        |p: PullRequestState| Seq::<char>::empty(),
    );
    lemma_no_candidate_kept(prs);
    assert(prs.filter(|p: PullRequestState| false).map_values(
        |p: PullRequestState| Seq::<char>::empty(),
    ) =~= Seq::empty());
}

proof fn lemma_picked_one(d: DutyView, category: Seq<char>)
    ensures
        picked(seq![d], category) == (if d.category == category {
            seq![d.command]
        } else {
            Seq::empty()
        }),
{
    lemma_picked_none(category);
    lemma_picked_push(Seq::empty(), d, category);
    assert(Seq::empty().push(d) =~= seq![d]);
    assert(Seq::empty().push(d.command) =~= seq![d.command]);
}

proof fn lemma_led(
    s: RepositoryState,
    config: ProtocolConfig,
    floor: Option<MetricFloor>,
    category: Seq<char>,
)
    ensures
        category != "maintainer-approval"@ && category != "queue"@ && category != "metric-floor"@
            && category != "stale-queue"@ ==> picked(led(s, config, floor), category)
            == Seq::<Seq<char>>::empty(),
        category == "queue"@ ==> picked(led(s, config, floor), category) == (if s.queue_depth
            < config.min_queue_depth {
            seq!["polyresearch generate --title \"...\" --body \"...\""@]
        } else {
            Seq::empty()
        }),
        category == "metric-floor"@ ==> picked(led(s, config, floor), category).len() == (
        if floor is Some {
            1nat
        } else {
            0nat
        }),
        category == "stale-queue"@ ==> picked(led(s, config, floor), category).len() == (
        if floor is Some && s.queue_depth >= config.min_queue_depth && s.queue_depth > 0 {
            1nat
        } else {
            0nat
        }),
        category == "maintainer-approval"@ ==> picked(led(s, config, floor), category).len() == (
        if config.auto_approve {
            0nat
        } else {
            s.theses@.filter(|t: ThesisState| waits_for_maintainer(t)).len() + candidates(s).filter(
                |p: PullRequestState| open_and_undecided(p) && p.policy_pass
                    && !p.maintainer_approved,
            ).len()
        }),
{
    lemma_categories();
    let a = if config.auto_approve {
        Seq::empty()
    } else {
        duties::gathered(s.theses@, |t: ThesisState| duties::thesis_advice(t))
    };
    let f = |p: PullRequestState| duties::candidate_advice(p, config);
    let b = duties::gathered_candidates(s.theses@, f);
    let c = duties::queue_advice(s, config);
    let d = duties::floor_advice(floor, s, config);
    lemma_picked_add(a + b + c, d, category);
    lemma_picked_add(a + b, c, category);
    lemma_picked_add(a, b, category);
    lemma_picked_none(category);
    lemma_candidates(s.theses@, f);
    let q = |t: ThesisState| category == "maintainer-approval"@ && waits_for_maintainer(t);
    let w = |t: ThesisState| "GitHub comment: /approve OR /reject <reason>"@;
    lemma_gathered(s.theses@, |t: ThesisState| duties::thesis_advice(t), category, q, w);
    let q2 = |p: PullRequestState|
        category == "maintainer-approval"@ && !config.auto_approve && open_and_undecided(p)
            && p.policy_pass && !p.maintainer_approved;
    let w2 = |p: PullRequestState| "GitHub comment: /approve OR /reject <reason>"@;
    lemma_gathered(candidates(s), f, category, q2, w2);
    if category == "maintainer-approval"@ {
        assert(q =~= |t: ThesisState| waits_for_maintainer(t));
        if !config.auto_approve {
            assert(q2 =~= |p: PullRequestState| open_and_undecided(p) && p.policy_pass
                && !p.maintainer_approved);
        } else {
            assert(q2 =~= |p: PullRequestState| false);
            lemma_no_candidate_kept(candidates(s));
        }
    } else {
        assert(q =~= |t: ThesisState| false);
        assert(q2 =~= |p: PullRequestState| false);
        lemma_none_kept(s.theses@);
        lemma_no_candidate_kept(candidates(s));
        assert(s.theses@.filter(q).map_values(w) =~= Seq::empty());
        assert(candidates(s).filter(q2).map_values(w2) =~= Seq::empty());
    }
    if s.queue_depth < config.min_queue_depth {
        lemma_picked_one(c[0], category);
        assert(c =~= seq![c[0]]);
    }
    if floor is Some {
        let first = d[0];
        lemma_picked_one(first, category);
        if s.queue_depth >= config.min_queue_depth && s.queue_depth > 0 {
            lemma_picked_push(seq![first], d[1], category);
            assert(d =~= seq![first].push(d[1]));
        } else {
            assert(d =~= seq![first]);
        }
    }
    assert(led(s, config, floor) =~= a + b + c + d);
}

/// The open thesis was submitted, and the maintainer has not rejected it.
pub open spec fn waits_for_maintainer(t: ThesisState) -> bool {
    t.issue.state@ == "OPEN"@ && t.phase == ThesisPhase::Submitted && !t.maintainer_rejected
}

/// Every open thesis that a node holds and has made no attempt at is advised to be worked at, in
/// the order of the theses.
pub proof fn every_claim_without_an_attempt_is_advised(
    s: RepositoryState,
    config: ProtocolConfig,
    ledger: Ledger,
    floor: Option<MetricFloor>,
    node: &str,
    login: &str,
    context: DutyContext,
    r: DutyReport,
)
    requires
        call_ensures(duties::check, (&s, &config, &ledger, &floor, node, login, context), r),
    ensures
        commands(r.advisory@, "attempt"@) == s.theses@.filter(
            |t: ThesisState|
                holds(t, node@) && !exists|i: int|
                    0 <= i < t.attempts@.len() && made_by(t, #[trigger] t.attempts@[i], node@),
        ).map_values(
            |t: ThesisState|
                "polyresearch attempt "@ + text::decimal(t.issue.number as nat)
                    + " --metric ... --observation ... --baseline ... --summary \"...\" OR polyresearch release "@
                    + text::decimal(t.issue.number as nat) + " --reason no_improvement"@,
        ),
{
    lemma_categories();
    let category = "attempt"@;
    lemma_advisory(s, config, ledger, floor, node, login, context, r, category);
    lemma_offers_elsewhere(s, node@, login@, category);
    lemma_led(s, config, floor, category);
    let rest = idle(s, config, floor, node@, login@);
    lemma_picked_none(category);
    if rest.len() > 0 {
        lemma_picked_one(rest[0], category);
    }
    let f = |t: ThesisState| duties::claim_advice(t, node@);
    let q = |t: ThesisState|
        holds(t, node@) && !exists|i: int|
            0 <= i < t.attempts@.len() && made_by(t, #[trigger] t.attempts@[i], node@);
    let c = |t: ThesisState|
        "polyresearch attempt "@ + text::decimal(t.issue.number as nat)
            + " --metric ... --observation ... --baseline ... --summary \"...\" OR polyresearch release "@
            + text::decimal(t.issue.number as nat) + " --reason no_improvement"@;
    assert forall|t: ThesisState|
        #![trigger f(t)]
        #![trigger q(t)]
        ((f(t) is Some && f(t)->Some_0.category == category) <==> q(t)) && (q(t)
            ==> f(t)->Some_0.command == c(t)) by {
        lemma_claim(t, node@);
    }
    lemma_gathered(s.theses@, f, category, q, c);
    assert(commands(r.advisory@, category) =~= s.theses@.filter(q).map_values(c));
}

/// A node may review the candidate: it is open, undecided and has passed the policy check, somebody
/// else has opened it, and the node has not claimed its review yet.
pub open spec fn may_review(p: PullRequestState, node: Seq<char>, login: Seq<char>) -> bool {
    &&& open_and_undecided(p)
    &&& p.policy_pass
    &&& !(p.pr.author matches Some(a) && a.login@ == login)
    &&& forall|i: int|
        0 <= i < p.review_claims@.len() ==> (#[trigger] p.review_claims@[i]).node@ != node
}

/// A node is offered exactly the candidates of theses in review that it may review, each by its
/// number and in their order.
pub proof fn candidates_are_offered_for_review(
    s: RepositoryState,
    config: ProtocolConfig,
    ledger: Ledger,
    floor: Option<MetricFloor>,
    node: &str,
    login: &str,
    context: DutyContext,
    r: DutyReport,
)
    requires
        call_ensures(duties::check, (&s, &config, &ledger, &floor, node, login, context), r),
    ensures
        commands(r.advisory@, "review"@) == s.theses@.filter(
            |t: ThesisState| t.phase == ThesisPhase::InReview,
        ).map_values(|t: ThesisState| t.pull_requests@).flatten().filter(
            |p: PullRequestState| may_review(p, node@, login@),
        ).map_values(
            |p: PullRequestState|
                "polyresearch review-claim "@ + text::decimal(p.pr.number as nat),
        ),
{
    lemma_categories();
    let category = "review"@;
    lemma_advisory(s, config, ledger, floor, node, login, context, r, category);
    lemma_own_elsewhere(s, node@, category);
    lemma_led(s, config, floor, category);
    let rest = idle(s, config, floor, node@, login@);
    lemma_picked_none(category);
    if rest.len() > 0 {
        lemma_picked_one(rest[0], category);
    }
    lemma_offers(s.theses@, node@, login@);
    let prs = s.theses@.filter(|t: ThesisState| t.phase == ThesisPhase::InReview).map_values(
        |t: ThesisState| t.pull_requests@,
    ).flatten();
    let q = |p: PullRequestState| may_review(p, node@, login@);
    let c = |p: PullRequestState| "polyresearch review-claim "@ + text::decimal(p.pr.number as nat);
    lemma_gathered(
        prs,
        |p: PullRequestState| duties::review_offer(p, node@, login@),
        category,
        q,
        c,
    );
    assert(commands(r.advisory@, category) =~= prs.filter(q).map_values(c));
}

/// The lead, in the lead's role, is told of everything that waits for the maintainer where things are
/// not approved by themselves: one thing for each submitted thesis, and one for each candidate that
/// has passed the policy check without an approval. They are asked for new theses exactly where the
/// queue is too short, and told that the metric is at its limit exactly where it is.
pub proof fn what_the_lead_is_advised(
    s: RepositoryState,
    config: ProtocolConfig,
    ledger: Ledger,
    floor: Option<MetricFloor>,
    node: &str,
    login: &str,
    r: DutyReport,
)
    requires
        call_ensures(
            duties::check,
            (&s, &config, &ledger, &floor, node, login, DutyContext::Lead),
            r,
        ),
        leads(login@, config),
    ensures
        commands(r.advisory@, "maintainer-approval"@).len() == (if config.auto_approve {
            0nat
        } else {
            s.theses@.filter(|t: ThesisState| waits_for_maintainer(t)).len() + candidates(s).filter(
                |p: PullRequestState| open_and_undecided(p) && p.policy_pass
                    && !p.maintainer_approved,
            ).len()
        }),
        commands(r.advisory@, "queue"@).len() == (if s.queue_depth < config.min_queue_depth {
            1nat
        } else {
            0nat
        }),
        commands(r.advisory@, "metric-floor"@).len() == (if floor is Some {
            1nat
        } else {
            0nat
        }),
        commands(r.advisory@, "stale-queue"@).len() == (if floor is Some && s.queue_depth
            >= config.min_queue_depth && s.queue_depth > 0 {
            1nat
        } else {
            0nat
        }),
{
    lemma_categories();
    lemma_lead_only(s, config, ledger, floor, node, login, r, "maintainer-approval"@);
    lemma_lead_only(s, config, ledger, floor, node, login, r, "queue"@);
    lemma_lead_only(s, config, ledger, floor, node, login, r, "metric-floor"@);
    lemma_lead_only(s, config, ledger, floor, node, login, r, "stale-queue"@);
}

proof fn lemma_lead_only(
    s: RepositoryState,
    config: ProtocolConfig,
    ledger: Ledger,
    floor: Option<MetricFloor>,
    node: &str,
    login: &str,
    r: DutyReport,
    category: Seq<char>,
)
    requires
        call_ensures(
            duties::check,
            (&s, &config, &ledger, &floor, node, login, DutyContext::Lead),
            r,
        ),
        leads(login@, config),
        category != "attempt"@,
        category != "review"@,
    ensures
        commands(r.advisory@, category) == picked(led(s, config, floor), category),
        category == "maintainer-approval"@ ==> picked(led(s, config, floor), category).len() == (
        if config.auto_approve {
            0nat
        } else {
            s.theses@.filter(|t: ThesisState| waits_for_maintainer(t)).len() + candidates(s).filter(
                |p: PullRequestState| open_and_undecided(p) && p.policy_pass
                    && !p.maintainer_approved,
            ).len()
        }),
        category == "queue"@ ==> picked(led(s, config, floor), category).len() == (
        if s.queue_depth < config.min_queue_depth {
            1nat
        } else {
            0nat
        }),
        category == "metric-floor"@ ==> picked(led(s, config, floor), category).len() == (
        if floor is Some {
            1nat
        } else {
            0nat
        }),
        category == "stale-queue"@ ==> picked(led(s, config, floor), category).len() == (
        if floor is Some && s.queue_depth >= config.min_queue_depth && s.queue_depth > 0 {
            1nat
        } else {
            0nat
        }),
{
    lemma_advisory(s, config, ledger, floor, node, login, DutyContext::Lead, r, category);
    lemma_own_elsewhere(s, node@, category);
    lemma_offers_elsewhere(s, node@, login@, category);
    lemma_led(s, config, floor, category);
    assert(commands(r.advisory@, category) =~= picked(led(s, config, floor), category));
}

proof fn lemma_count(theses: Seq<ThesisState>, f: spec_fn(ThesisState) -> bool)
    ensures
        duties::count_theses(theses, f) == theses.filter(f).len(),
    decreases theses.len(),
{
    reveal(Seq::filter);
    if theses.len() > 0 {
        lemma_count(theses.drop_last(), f);
    }
}

/// Only what is open and approved can be claimed: the count is that of these theses.
pub proof fn what_can_be_claimed(theses: Vec<ThesisState>, r: usize)
    requires
        call_ensures(duties::count_claimable, (&theses,), r),
    ensures
        r == theses@.filter(
            |t: ThesisState| t.issue.state@ == "OPEN"@ && t.phase == ThesisPhase::Approved,
        ).len(),
{
    let f = |t: ThesisState| duties::claimable(t);
    lemma_count(theses@, f);
    assert(f =~= |t: ThesisState| t.issue.state@ == "OPEN"@ && t.phase == ThesisPhase::Approved);
}

/// A node has given a thesis up exactly where it has released it for want of an improvement.
pub proof fn who_has_given_up(releases: Vec<ReleaseRecord>, node: &str, r: bool)
    requires
        call_ensures(duties::has_given_up, (&releases, node), r),
    ensures
        r <==> exists|i: int|
            0 <= i < releases@.len() && (#[trigger] releases@[i]).node@ == node@
                && releases@[i].reason == ReleaseReason::NoImprovement,
{
}

/// A contributor without a candidate to review is told to wait: where the queue is empty; where
/// nothing can be claimed and something waits for the maintainer; and where something can be
/// claimed, but the metric is at its limit, or the node has given up all of it. In every other
/// case, and where there is something to review, it is not told to wait.
pub proof fn when_a_contributor_is_told_to_wait(
    s: RepositoryState,
    config: ProtocolConfig,
    ledger: Ledger,
    floor: Option<MetricFloor>,
    node: &str,
    login: &str,
    context: DutyContext,
    r: DutyReport,
)
    requires
        call_ensures(duties::check, (&s, &config, &ledger, &floor, node, login, context), r),
        !leads(login@, config) || context == DutyContext::Contribute,
    ensures
        ({
            let busy = commands(r.advisory@, "review"@).len() > 0;
            let open = s.theses@.filter(
                |t: ThesisState| t.issue.state@ == "OPEN"@ && t.phase == ThesisPhase::Approved,
            ).len();
            let waiting = s.theses@.filter(|t: ThesisState| waits_for_maintainer(t)).len();
            let untried = s.theses@.filter(
                |t: ThesisState|
                    t.issue.state@ == "OPEN"@ && t.phase == ThesisPhase::Approved && !exists|i: int|
                        0 <= i < t.releases@.len() && (#[trigger] t.releases@[i]).node@ == node@
                            && t.releases@[i].reason == ReleaseReason::NoImprovement,
            ).len();
            &&& commands(r.advisory@, "idle"@).len() > 0 <==> !busy && s.queue_depth == 0
            &&& commands(r.advisory@, "awaiting-approval"@).len() > 0 <==> !busy && s.queue_depth
                > 0 && open == 0 && waiting > 0
            &&& commands(r.advisory@, "no-claimable-work"@).len() > 0 <==> !busy && s.queue_depth
                > 0 && open > 0 && (floor is Some || (node@.len() > 0 && untried == 0))
        }),
{
    lemma_categories();
    lemma_idle_only(s, config, ledger, floor, node, login, context, r, "idle"@);
    lemma_idle_only(s, config, ledger, floor, node, login, context, r, "awaiting-approval"@);
    lemma_idle_only(s, config, ledger, floor, node, login, context, r, "no-claimable-work"@);
    let f = |t: ThesisState| duties::claimable(t);
    lemma_count(s.theses@, f);
    assert(f =~= |t: ThesisState| t.issue.state@ == "OPEN"@ && t.phase == ThesisPhase::Approved);
    let g = |t: ThesisState| duties::awaits_maintainer(t);
    lemma_count(s.theses@, g);
    assert(g =~= |t: ThesisState| waits_for_maintainer(t));
    let h = |t: ThesisState| duties::claimable(t) && !duties::gave_up(t.releases@, node@);
    lemma_count(s.theses@, h);
    assert(h =~= |t: ThesisState|
        t.issue.state@ == "OPEN"@ && t.phase == ThesisPhase::Approved && !exists|i: int|
            0 <= i < t.releases@.len() && (#[trigger] t.releases@[i]).node@ == node@
                && t.releases@[i].reason == ReleaseReason::NoImprovement);
    lemma_busy(s, config, ledger, floor, node, login, context, r);
}

proof fn lemma_idle_only(
    s: RepositoryState,
    config: ProtocolConfig,
    ledger: Ledger,
    floor: Option<MetricFloor>,
    node: &str,
    login: &str,
    context: DutyContext,
    r: DutyReport,
    category: Seq<char>,
)
    requires
        call_ensures(duties::check, (&s, &config, &ledger, &floor, node, login, context), r),
        !leads(login@, config) || context == DutyContext::Contribute,
        category != "attempt"@,
        category != "review"@,
    ensures
        commands(r.advisory@, category).len() > 0 <==> idle(
            s,
            config,
            floor,
            node@,
            login@,
        ).len() > 0 && idle(s, config, floor, node@, login@)[0].category == category,
{
    lemma_advisory(s, config, ledger, floor, node, login, context, r, category);
    lemma_own_elsewhere(s, node@, category);
    lemma_offers_elsewhere(s, node@, login@, category);
    let rest = idle(s, config, floor, node@, login@);
    lemma_picked_none(category);
    if rest.len() > 0 {
        lemma_picked_one(rest[0], category);
    }
}

proof fn lemma_busy(
    s: RepositoryState,
    config: ProtocolConfig,
    ledger: Ledger,
    floor: Option<MetricFloor>,
    node: &str,
    login: &str,
    context: DutyContext,
    r: DutyReport,
)
    requires
        call_ensures(duties::check, (&s, &config, &ledger, &floor, node, login, context), r),
        !leads(login@, config) || context == DutyContext::Contribute,
    ensures
        duties::review_offers(s.theses@, node@, login@).len() > 0 <==> commands(
            r.advisory@,
            "review"@,
        ).len() > 0,
{
    lemma_categories();
    let category = "review"@;
    lemma_advisory(s, config, ledger, floor, node, login, context, r, category);
    lemma_own_elsewhere(s, node@, category);
    let rest = idle(s, config, floor, node@, login@);
    lemma_picked_none(category);
    if rest.len() > 0 {
        lemma_picked_one(rest[0], category);
    }
    lemma_offers(s.theses@, node@, login@);
    let prs = s.theses@.filter(|t: ThesisState| t.phase == ThesisPhase::InReview).map_values(
        |t: ThesisState| t.pull_requests@,
    ).flatten();
    let f = |p: PullRequestState| duties::review_offer(p, node@, login@);
    lemma_all_offers(prs, node@, login@);
}

proof fn lemma_all_offers(prs: Seq<PullRequestState>, node: Seq<char>, login: Seq<char>)
    ensures
        ({
            let g = duties::gathered(prs, |p: PullRequestState| duties::review_offer(p, node, login));
            picked(g, "review"@).len() == g.len()
        }),
    decreases prs.len(),
{
    let f = |p: PullRequestState| duties::review_offer(p, node, login);
    if prs.len() > 0 {
        lemma_all_offers(prs.drop_last(), node, login);
        if f(prs.last()) is Some {
            lemma_picked_push(
                duties::gathered(prs.drop_last(), f),
                f(prs.last())->Some_0,
                "review"@,
            );
        }
    } else {
        lemma_picked_none("review"@);
    }
}

} // verus!
