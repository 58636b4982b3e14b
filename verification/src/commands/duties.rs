//! What a node has to do next.
use crate::comments::{Observation, Outcome, ReleaseReason};
use crate::config::ProtocolConfig;
use crate::ledger::Ledger;
use crate::state::{
    AttemptRecord, ClaimRecord, PullRequestState, ReleaseRecord, RepositoryState, ThesisPhase,
    ThesisState,
};
use crate::text;
use crate::time::Timestamp;
use crate::validation;
use vstd::prelude::*;
use vstd::string::*;

verus! {

/// How often a candidate may be turned down before the thesis is to be released.
pub const MAX_SUBMIT_REJECTIONS: usize = 2;

/// In which role a node asks for its duties.
#[derive(Clone, Copy, Debug, PartialEq, Eq, Structural)]
pub enum DutyContext {
    Lead,
    Contribute,
}

/// Something to do.
#[derive(Debug)]
pub struct DutyItem {
    pub category: String,
    pub message: String,
    pub command: String,
}

impl Clone for DutyItem {
    fn clone(&self) -> (r: Self)
        ensures
            r == *self,
    {
        DutyItem {
            category: self.category.clone(),
            message: self.message.clone(),
            command: self.command.clone(),
        }
    }
}

/// What there is to do.
#[derive(Debug)]
pub struct DutyReport {
    pub blocking: Vec<DutyItem>,
    pub advisory: Vec<DutyItem>,
    pub clean: bool,
}

/// The contents of something to do.
pub struct DutyView {
    pub category: Seq<char>,
    pub message: Seq<char>,
    pub command: Seq<char>,
}

impl View for DutyItem {
    type V = DutyView;

    open spec fn view(&self) -> DutyView {
        DutyView { category: self.category@, message: self.message@, command: self.command@ }
    }
}

/// The contents of a list of things to do.
pub open spec fn duty_views(v: Seq<DutyItem>) -> Seq<DutyView> {
    v.map_values(|d: DutyItem| d@)
}

fn put(list: &mut Vec<DutyItem>, category: &str, message: String, command: String)
    ensures
        duty_views(final(list)@) == duty_views(old(list)@).push(
            (DutyView { category: category@, message: message@, command: command@ }),
        ),
{
    let ghost before = list@;
    list.push(DutyItem { category: category.to_owned(), message, command });
    assert(duty_views(list@) =~= duty_views(before).push(list@.last()@));
}

/// The things to do that items give, one or none each.
pub open spec fn gathered<T>(items: Seq<T>, f: spec_fn(T) -> Option<DutyView>) -> Seq<DutyView>
    decreases items.len(),
{
    if items.len() == 0 {
        Seq::empty()
    } else {
        let rest = gathered(items.drop_last(), f);
        match f(items.last()) {
            Some(d) => rest.push(d),
            None => rest,
        }
    }
}

/// The things to do that the candidates of theses give.
pub open spec fn gathered_candidates(
    theses: Seq<ThesisState>,
    f: spec_fn(PullRequestState) -> Option<DutyView>,
) -> Seq<DutyView>
    decreases theses.len(),
{
    if theses.len() == 0 {
        Seq::empty()
    } else {
        gathered_candidates(theses.drop_last(), f) + gathered(theses.last().pull_requests@, f)
    }
}

/// The attempt was made while the node held the thesis.
pub open spec fn made_under_claim(claims: Seq<ClaimRecord>, a: AttemptRecord, node: Seq<char>) -> bool {
    exists|i: int|
        0 <= i < claims.len() && (#[trigger] claims[i]).node@ == node && !a.created_at.earlier(
            claims[i].created_at,
        )
}

/// The node has made an attempt under its claim.
pub open spec fn has_attempt(t: ThesisState, node: Seq<char>) -> bool {
    exists|i: int|
        0 <= i < t.attempts@.len() && made_under_claim(
            t.active_claims@,
            #[trigger] t.attempts@[i],
            node,
        )
}

/// The node has made an attempt under its claim that improved the metric.
pub open spec fn has_improved(t: ThesisState, node: Seq<char>) -> bool {
    exists|i: int|
        0 <= i < t.attempts@.len() && made_under_claim(
            t.active_claims@,
            #[trigger] t.attempts@[i],
            node,
        ) && t.attempts@[i].observation == Observation::Improved
}

/// A candidate is open or merged.
pub open spec fn has_live_candidate(t: ThesisState) -> bool {
    exists|i: int|
        0 <= i < t.pull_requests@.len() && ((#[trigger] t.pull_requests@[i]).pr.state@ == "OPEN"@
            || t.pull_requests@[i].pr.state@ == "MERGED"@)
}

/// When the node's claim was made.
pub open spec fn claim_start(claims: Seq<ClaimRecord>, node: Seq<char>, i: int) -> Option<Timestamp>
    decreases claims.len() - i,
{
    if i >= claims.len() {
        None
    } else if claims[i].node@ == node {
        Some(claims[i].created_at)
    } else {
        claim_start(claims, node, i + 1)
    }
}

/// The candidate was turned down for not being good enough, since the time.
pub open spec fn turned_down(pr: PullRequestState, since: Option<Timestamp>) -> bool {
    pr.pr.state@ == "CLOSED"@ && (pr.decision matches Some(d) && (d.outcome
        == Outcome::NonImprovement || d.outcome == Outcome::Stale) && (since matches Some(s)
        ==> !d.created_at.earlier(s)))
}

/// How many candidates were turned down since the time.
pub open spec fn rejections(prs: Seq<PullRequestState>, since: Option<Timestamp>) -> nat
    decreases prs.len(),
{
    if prs.len() == 0 {
        0
    } else {
        rejections(prs.drop_last(), since) + (if turned_down(prs.last(), since) {
            1nat
        } else {
            0nat
        })
    }
}

/// The node holds the thesis, and the thesis is open.
pub open spec fn holds_thesis(t: ThesisState, node: Seq<char>) -> bool {
    t.issue.state@ == "OPEN"@ && t.held_by(node)
}

/// What a claim advises: to make an attempt.
pub open spec fn claim_advice(t: ThesisState, node: Seq<char>) -> Option<DutyView> {
    let n = text::decimal(t.issue.number as nat);
    if holds_thesis(t, node) && !has_attempt(t, node) {
        Some(
            DutyView {
                category: "attempt"@,
                message: "Thesis #"@ + n + ": claimed with 0 attempts posted yet."@,
                command: "polyresearch attempt "@ + n
                    + " --metric ... --observation ... --baseline ... --summary \"...\" OR polyresearch release "@
                    + n + " --reason no_improvement"@,
            },
        )
    } else {
        None
    }
}

/// What a claim demands: to submit an improvement, or to release the thesis where candidates were
/// turned down too often.
pub open spec fn claim_demand(t: ThesisState, node: Seq<char>) -> Option<DutyView> {
    let n = text::decimal(t.issue.number as nat);
    if holds_thesis(t, node) && has_improved(t, node) && !has_live_candidate(t) {
        let count = rejections(t.pull_requests@, claim_start(t.active_claims@, node, 0));
        if count >= MAX_SUBMIT_REJECTIONS {
            Some(
                DutyView {
                    category: "release"@,
                    message: "Thesis #"@ + n + ": "@ + text::decimal(count)
                        + " consecutive PR rejections; release the claim."@,
                    command: "polyresearch release "@ + n + " --reason no_improvement"@,
                },
            )
        } else {
            Some(
                DutyView {
                    category: "submit"@,
                    message: "Thesis #"@ + n + ": improved attempt recorded but no PR submitted."@,
                    command: "polyresearch submit "@ + n,
                },
            )
        }
    } else {
        None
    }
}

fn is_made_under_claim(claims: &Vec<ClaimRecord>, a: &AttemptRecord, node: &str) -> (r: bool)
    ensures
        r == made_under_claim(claims@, *a, node@),
{
    let mut i: usize = 0;
    while i < claims.len()
        invariant
            i <= claims.len(),
            forall|j: int|
                0 <= j < i ==> !((#[trigger] claims@[j]).node@ == node@ && !a.created_at.earlier(
                    claims@[j].created_at,
                )),
        decreases claims.len() - i,
    {
        if text::same(claims[i].node.as_str(), node) && !a.created_at.before(
            &claims[i].created_at,
        ) {
            assert(claims@[i as int].node@ == node@);
            return true;
        }
        i = i + 1;
    }
    false
}

fn find_attempt(t: &ThesisState, node: &str, improved: bool) -> (r: bool)
    ensures
        r == (if improved {
            has_improved(*t, node@)
        } else {
            has_attempt(*t, node@)
        }),
{
    let mut i: usize = 0;
    while i < t.attempts.len()
        invariant
            i <= t.attempts.len(),
            forall|j: int|
                0 <= j < i ==> !(made_under_claim(
                    t.active_claims@,
                    #[trigger] t.attempts@[j],
                    node@,
                ) && (!improved || t.attempts@[j].observation == Observation::Improved)),
        decreases t.attempts.len() - i,
    {
        if is_made_under_claim(&t.active_claims, &t.attempts[i], node) && (!improved
            || t.attempts[i].observation == Observation::Improved) {
            assert(made_under_claim(t.active_claims@, t.attempts@[i as int], node@));
            return true;
        }
        i = i + 1;
    }
    false
}

fn is_live(t: &ThesisState) -> (r: bool)
    ensures
        r == has_live_candidate(*t),
{
    let mut i: usize = 0;
    while i < t.pull_requests.len()
        invariant
            i <= t.pull_requests.len(),
            forall|j: int|
                0 <= j < i ==> !((#[trigger] t.pull_requests@[j]).pr.state@ == "OPEN"@
                    || t.pull_requests@[j].pr.state@ == "MERGED"@),
        decreases t.pull_requests.len() - i,
    {
        if text::same(t.pull_requests[i].pr.state.as_str(), "OPEN") || text::same(
            t.pull_requests[i].pr.state.as_str(),
            "MERGED",
        ) {
            assert(t.pull_requests@[i as int].pr.state@ == "OPEN"@
                || t.pull_requests@[i as int].pr.state@ == "MERGED"@);
            return true;
        }
        i = i + 1;
    }
    false
}

fn start_of_claim(claims: &Vec<ClaimRecord>, node: &str) -> (r: Option<Timestamp>)
    ensures
        r == claim_start(claims@, node@, 0),
{
    let mut i: usize = 0;
    while i < claims.len()
        invariant
            i <= claims.len(),
            claim_start(claims@, node@, 0) == claim_start(claims@, node@, i as int),
        decreases claims.len() - i,
    {
        if text::same(claims[i].node.as_str(), node) {
            return Some(claims[i].created_at);
        }
        i = i + 1;
    }
    None
}

/// How many candidates were turned down since the time.
pub fn count_rejections(prs: &Vec<PullRequestState>, since: Option<Timestamp>) -> (r: usize)
    ensures
        r == rejections(prs@, since),
        r <= prs.len(),
{
    let mut n: usize = 0;
    let mut i: usize = 0;
    assert(prs@.take(0).len() == 0);
    while i < prs.len()
        invariant
            i <= prs.len(),
            n <= i,
            n == rejections(prs@.take(i as int), since),
        decreases prs.len() - i,
    {
        assert(prs@.take(i + 1).drop_last() =~= prs@.take(i as int));
        let down = match &prs[i].decision {
            Some(d) => (d.outcome == Outcome::NonImprovement || d.outcome == Outcome::Stale) && (
            match since {
                Some(s) => !d.created_at.before(&s),
                None => true,
            }),
            None => false,
        };
        if text::same(prs[i].pr.state.as_str(), "CLOSED") && down {
            n = n + 1;
        }
        i = i + 1;
    }
    assert(prs@.take(i as int) =~= prs@);
    n
}

fn check_claim(
    t: &ThesisState,
    node: &str,
    blocking: &mut Vec<DutyItem>,
    advisory: &mut Vec<DutyItem>,
)
    ensures
        duty_views(final(blocking)@) == (match claim_demand(*t, node@) {
            Some(d) => duty_views(old(blocking)@).push(d),
            None => duty_views(old(blocking)@),
        }),
        duty_views(final(advisory)@) == (match claim_advice(*t, node@) {
            Some(d) => duty_views(old(advisory)@).push(d),
            None => duty_views(old(advisory)@),
        }),
{
    if !text::same(t.issue.state.as_str(), "OPEN") || !t.is_claimed_by(node) {
        return;
    }
    let n: u64 = t.issue.number;
    if !find_attempt(t, node, false) {
        let mut command = text::say(
            "polyresearch attempt ",
            n,
            " --metric ... --observation ... --baseline ... --summary \"...\" OR polyresearch release ",
        );
        command.append(text::number(n).as_str());
        command.append(" --reason no_improvement");
        put(
            advisory,
            "attempt",
            text::say("Thesis #", n, ": claimed with 0 attempts posted yet."),
            command,
        );
    }
    if find_attempt(t, node, true) && !is_live(t) {
        let since = start_of_claim(&t.active_claims, node);
        let count: usize = count_rejections(&t.pull_requests, since);
        if count >= MAX_SUBMIT_REJECTIONS {
            let mut message = text::say("Thesis #", n, ": ");
            message.append(text::number(count as u64).as_str());
            message.append(" consecutive PR rejections; release the claim.");
            put(
                blocking,
                "release",
                message,
                text::say("polyresearch release ", n, " --reason no_improvement"),
            );
        } else {
            let mut command = "polyresearch submit ".to_owned();
            command.append(text::number(n).as_str());
            put(
                blocking,
                "submit",
                text::say("Thesis #", n, ": improved attempt recorded but no PR submitted."),
                command,
            );
        }
    }
}

/// The thesis waits for the maintainer's word.
pub open spec fn awaits_maintainer(t: ThesisState) -> bool {
    t.issue.state@ == "OPEN"@ && t.phase == ThesisPhase::Submitted && !t.maintainer_rejected
}

/// What a thesis advises the lead: to wait for the maintainer.
pub open spec fn thesis_advice(t: ThesisState) -> Option<DutyView> {
    if awaits_maintainer(t) {
        Some(
            DutyView {
                category: "maintainer-approval"@,
                message: "Thesis #"@ + text::decimal(t.issue.number as nat)
                    + ": awaiting maintainer `/approve`."@,
                command: "GitHub comment: /approve OR /reject <reason>"@,
            },
        )
    } else {
        None
    }
}

/// The candidate is open and not decided.
pub open spec fn undecided(pr: PullRequestState) -> bool {
    pr.pr.state@ == "OPEN"@ && pr.decision is None
}

/// The candidate has passed the policy and waits for the maintainer.
pub open spec fn held_for_maintainer(pr: PullRequestState, config: ProtocolConfig) -> bool {
    undecided(pr) && pr.policy_pass && !config.auto_approve && !pr.maintainer_approved
}

/// What a candidate advises the lead: to wait for the maintainer.
pub open spec fn candidate_advice(pr: PullRequestState, config: ProtocolConfig) -> Option<DutyView> {
    let n = text::decimal(pr.pr.number as nat);
    if held_for_maintainer(pr, config) {
        Some(
            DutyView {
                category: "maintainer-approval"@,
                message: "PR #"@ + n + (if pr.maintainer_rejected {
                    ": maintainer rejected the candidate; waiting for a new `/approve` or replacement PR."@
                } else {
                    ": awaiting maintainer `/approve`."@
                }),
                command: "GitHub comment: /approve OR /reject <reason>"@,
            },
        )
    } else {
        None
    }
}

/// What a candidate demands of the lead: to check it against the policy, or to decide it.
pub open spec fn candidate_demand(pr: PullRequestState, config: ProtocolConfig) -> Option<DutyView> {
    let n = text::decimal(pr.pr.number as nat);
    let required = config.required_confirmations;
    if undecided(pr) && !pr.policy_pass {
        Some(
            DutyView {
                category: "policy-check"@,
                message: "PR #"@ + n + ": open without policy-check."@,
                command: "polyresearch policy-check "@ + n,
            },
        )
    } else if undecided(pr) && !held_for_maintainer(pr, config) && (required == 0
        || pr.reviews@.len() >= required) {
        Some(
            DutyView {
                category: "decide"@,
                message: "PR #"@ + n + ": "@ + text::decimal(pr.reviews@.len()) + "/"@
                    + text::decimal(required as nat) + " reviews, ready for decision."@,
                command: "polyresearch decide "@ + n,
            },
        )
    } else {
        None
    }
}

/// The demand to bring the ledger up to date.
pub open spec fn sync_demand(current: bool) -> Seq<DutyView> {
    if current {
        Seq::empty()
    } else {
        seq![
            DutyView {
                category: "sync"@,
                message: "results.tsv is stale."@,
                command: "polyresearch sync"@,
            },
        ]
    }
}

/// The command that makes a new thesis.
pub open spec fn generate_command() -> Seq<char> {
    "polyresearch generate --title \"...\" --body \"...\""@
}

/// The advice to fill the queue.
pub open spec fn queue_advice(s: RepositoryState, config: ProtocolConfig) -> Seq<DutyView> {
    if s.queue_depth < config.min_queue_depth {
        seq![
            DutyView {
                category: "queue"@,
                message: "Queue depth is "@ + text::decimal(s.queue_depth as nat) + " (min = "@
                    + text::decimal(config.min_queue_depth as nat) + ")."@,
                command: generate_command(),
            },
        ]
    } else {
        Seq::empty()
    }
}

/// How near the best metric is to the limit: the metric and the tolerance, as they are shown.
pub struct MetricFloor {
    pub best: String,
    pub tolerance: String,
}

/// The advice that no improvement is left to be made.
pub open spec fn floor_advice(
    floor: Option<MetricFloor>,
    s: RepositoryState,
    config: ProtocolConfig,
) -> Seq<DutyView> {
    match floor {
        Some(f) => {
            let first = seq![
                DutyView {
                    category: "metric-floor"@,
                    message: "Best metric ("@ + f.best@ + ") is within metric_tolerance ("@
                        + f.tolerance@
                        + ") of the limit. Further improvement within the current tolerance is impossible."@,
                    command: "Consider adjusting metric_tolerance or concluding the program."@,
                },
            ];
            if s.queue_depth >= config.min_queue_depth && s.queue_depth > 0 {
                first.push(
                    DutyView {
                        category: "stale-queue"@,
                        message: "Queue depth is "@ + text::decimal(s.queue_depth as nat)
                            + " but best metric ("@ + f.best@
                            + ") is already within metric_tolerance ("@ + f.tolerance@
                            + ") of the limit. Existing theses may no longer contain meaningful work."@,
                        command: generate_command(),
                    },
                )
            } else {
                first
            }
        },
        None => Seq::empty(),
    }
}

/// All that demands something of the lead.
pub open spec fn lead_demands(s: RepositoryState, config: ProtocolConfig, ledger: Ledger) -> Seq<
    DutyView,
> {
    gathered_candidates(s.theses@, |p: PullRequestState| candidate_demand(p, config)) + sync_demand(
        ledger.current(s),
    )
}

/// All that advises the lead.
pub open spec fn lead_advices(
    s: RepositoryState,
    config: ProtocolConfig,
    floor: Option<MetricFloor>,
) -> Seq<DutyView> {
    (if config.auto_approve {
        Seq::empty()
    } else {
        gathered(s.theses@, |t: ThesisState| thesis_advice(t))
    }) + gathered_candidates(s.theses@, |p: PullRequestState| candidate_advice(p, config))
        + queue_advice(s, config) + floor_advice(floor, s, config)
}

fn check_candidate(
    pr: &PullRequestState,
    config: &ProtocolConfig,
    blocking: &mut Vec<DutyItem>,
    advisory: &mut Vec<DutyItem>,
)
    ensures
        duty_views(final(blocking)@) == (match candidate_demand(*pr, *config) {
            Some(d) => duty_views(old(blocking)@).push(d),
            None => duty_views(old(blocking)@),
        }),
        duty_views(final(advisory)@) == (match candidate_advice(*pr, *config) {
            Some(d) => duty_views(old(advisory)@).push(d),
            None => duty_views(old(advisory)@),
        }),
{
    if !text::same(pr.pr.state.as_str(), "OPEN") || pr.decision.is_some() {
        return;
    }
    let n: u64 = pr.pr.number;
    if !pr.policy_pass {
        let mut command = "polyresearch policy-check ".to_owned();
        command.append(text::number(n).as_str());
        put(
            blocking,
            "policy-check",
            text::say("PR #", n, ": open without policy-check."),
            command,
        );
        return;
    }
    if !config.auto_approve && !pr.maintainer_approved {
        let message = if pr.maintainer_rejected {
            text::say(
                "PR #",
                n,
                ": maintainer rejected the candidate; waiting for a new `/approve` or replacement PR.",
            )
        } else {
            text::say("PR #", n, ": awaiting maintainer `/approve`.")
        };
        put(
            advisory,
            "maintainer-approval",
            message,
            "GitHub comment: /approve OR /reject <reason>".to_owned(),
        );
        return;
    }
    let required: u64 = config.required_confirmations;
    let reviews: u64 = pr.reviews.len() as u64;
    if required == 0 || reviews >= required {
        let mut message = text::say("PR #", n, ": ");
        message.append(text::number(reviews).as_str());
        message.append("/");
        message.append(text::number(required).as_str());
        message.append(" reviews, ready for decision.");
        let mut command = "polyresearch decide ".to_owned();
        command.append(text::number(n).as_str());
        put(blocking, "decide", message, command);
    }
}

fn check_lead_candidates(
    theses: &Vec<ThesisState>,
    config: &ProtocolConfig,
    blocking: &mut Vec<DutyItem>,
    advisory: &mut Vec<DutyItem>,
)
    ensures
        duty_views(final(blocking)@) == duty_views(old(blocking)@) + gathered_candidates(
            theses@,
            |p: PullRequestState| candidate_demand(p, *config),
        ),
        duty_views(final(advisory)@) == duty_views(old(advisory)@) + gathered_candidates(
            theses@,
            |p: PullRequestState| candidate_advice(p, *config),
        ),
{
    let ghost f = |p: PullRequestState| candidate_demand(p, *config);
    let ghost g = |p: PullRequestState| candidate_advice(p, *config);
    let ghost b0 = duty_views(blocking@);
    let ghost a0 = duty_views(advisory@);
    let mut i: usize = 0;
    assert(theses@.take(0).len() == 0);
    assert(b0 + gathered_candidates(theses@.take(0), f) =~= b0);
    assert(a0 + gathered_candidates(theses@.take(0), g) =~= a0);
    while i < theses.len()
        invariant
            i <= theses.len(),
            f == |p: PullRequestState| candidate_demand(p, *config),
            g == |p: PullRequestState| candidate_advice(p, *config),
            duty_views(blocking@) == b0 + gathered_candidates(theses@.take(i as int), f),
            duty_views(advisory@) == a0 + gathered_candidates(theses@.take(i as int), g),
        decreases theses.len() - i,
    {
        let ghost b1 = duty_views(blocking@);
        let ghost a1 = duty_views(advisory@);
        let prs = &theses[i].pull_requests;
        let mut k: usize = 0;
        assert(prs@.take(0).len() == 0);
        assert(b1 + gathered(prs@.take(0), f) =~= b1);
        assert(a1 + gathered(prs@.take(0), g) =~= a1);
        while k < prs.len()
            invariant
                k <= prs.len(),
                f == |p: PullRequestState| candidate_demand(p, *config),
                g == |p: PullRequestState| candidate_advice(p, *config),
                duty_views(blocking@) == b1 + gathered(prs@.take(k as int), f),
                duty_views(advisory@) == a1 + gathered(prs@.take(k as int), g),
            decreases prs.len() - k,
        {
            proof {
                assert(prs@.take(k + 1).drop_last() =~= prs@.take(k as int));
                assert(prs@.take(k + 1).last() == prs@[k as int]);
                assert(f(prs@[k as int]) == candidate_demand(prs@[k as int], *config));
                assert(g(prs@[k as int]) == candidate_advice(prs@[k as int], *config));
            }
            check_candidate(&prs[k], config, blocking, advisory);
            proof {
                assert(duty_views(blocking@) =~= b1 + gathered(prs@.take(k + 1), f));
                assert(duty_views(advisory@) =~= a1 + gathered(prs@.take(k + 1), g));
            }
            k = k + 1;
        }
        proof {
            assert(prs@.take(k as int) =~= prs@);
            assert(theses@.take(i + 1).drop_last() =~= theses@.take(i as int));
            assert(theses@.take(i + 1).last() == theses@[i as int]);
            assert(duty_views(blocking@) =~= b0 + gathered_candidates(theses@.take(i + 1), f));
            assert(duty_views(advisory@) =~= a0 + gathered_candidates(theses@.take(i + 1), g));
        }
        i = i + 1;
    }
    assert(theses@.take(i as int) =~= theses@);
}

fn check_maintainer(theses: &Vec<ThesisState>, advisory: &mut Vec<DutyItem>)
    ensures
        duty_views(final(advisory)@) == duty_views(old(advisory)@) + gathered(
            theses@,
            |t: ThesisState| thesis_advice(t),
        ),
{
    let ghost f = |t: ThesisState| thesis_advice(t);
    let ghost a0 = duty_views(advisory@);
    let mut i: usize = 0;
    assert(theses@.take(0).len() == 0);
    assert(a0 + gathered(theses@.take(0), f) =~= a0);
    while i < theses.len()
        invariant
            i <= theses.len(),
            f == |t: ThesisState| thesis_advice(t),
            duty_views(advisory@) == a0 + gathered(theses@.take(i as int), f),
        decreases theses.len() - i,
    {
        let t = &theses[i];
        proof {
            assert(theses@.take(i + 1).drop_last() =~= theses@.take(i as int));
            assert(theses@.take(i + 1).last() == theses@[i as int]);
            assert(f(theses@[i as int]) == thesis_advice(theses@[i as int]));
        }
        if text::same(t.issue.state.as_str(), "OPEN") && t.phase == ThesisPhase::Submitted
            && !t.maintainer_rejected {
            put(
                advisory,
                "maintainer-approval",
                text::say("Thesis #", t.issue.number, ": awaiting maintainer `/approve`."),
                "GitHub comment: /approve OR /reject <reason>".to_owned(),
            );
        }
        assert(duty_views(advisory@) =~= a0 + gathered(theses@.take(i + 1), f));
        i = i + 1;
    }
    assert(theses@.take(i as int) =~= theses@);
}

fn check_queue(s: &RepositoryState, config: &ProtocolConfig, advisory: &mut Vec<DutyItem>)
    ensures
        duty_views(final(advisory)@) == duty_views(old(advisory)@) + queue_advice(*s, *config),
{
    let ghost a0 = duty_views(advisory@);
    if s.queue_depth < config.min_queue_depth {
        let mut message = text::say("Queue depth is ", s.queue_depth as u64, " (min = ");
        message.append(text::number(config.min_queue_depth as u64).as_str());
        message.append(").");
        put(
            advisory,
            "queue",
            message,
            "polyresearch generate --title \"...\" --body \"...\"".to_owned(),
        );
    }
    assert(duty_views(advisory@) =~= a0 + queue_advice(*s, *config));
}

fn check_floor(
    floor: &Option<MetricFloor>,
    s: &RepositoryState,
    config: &ProtocolConfig,
    advisory: &mut Vec<DutyItem>,
)
    ensures
        duty_views(final(advisory)@) == duty_views(old(advisory)@) + floor_advice(
            *floor,
            *s,
            *config,
        ),
{
    let ghost a0 = duty_views(advisory@);
    if let Some(f) = floor {
        let mut message = "Best metric (".to_owned();
        message.append(f.best.as_str());
        message.append(") is within metric_tolerance (");
        message.append(f.tolerance.as_str());
        message.append(
            ") of the limit. Further improvement within the current tolerance is impossible.",
        );
        put(
            advisory,
            "metric-floor",
            message,
            "Consider adjusting metric_tolerance or concluding the program.".to_owned(),
        );
        if s.queue_depth >= config.min_queue_depth && s.queue_depth > 0 {
            let mut message = text::say(
                "Queue depth is ",
                s.queue_depth as u64,
                " but best metric (",
            );
            message.append(f.best.as_str());
            message.append(") is already within metric_tolerance (");
            message.append(f.tolerance.as_str());
            message.append(
                ") of the limit. Existing theses may no longer contain meaningful work.",
            );
            put(
                advisory,
                "stale-queue",
                message,
                "polyresearch generate --title \"...\" --body \"...\"".to_owned(),
            );
        }
    }
    assert(duty_views(advisory@) =~= a0 + floor_advice(*floor, *s, *config));
}

fn check_lead_duties(
    s: &RepositoryState,
    config: &ProtocolConfig,
    ledger: &Ledger,
    floor: &Option<MetricFloor>,
    blocking: &mut Vec<DutyItem>,
    advisory: &mut Vec<DutyItem>,
)
    ensures
        duty_views(final(blocking)@) == duty_views(old(blocking)@) + lead_demands(
            *s,
            *config,
            *ledger,
        ),
        duty_views(final(advisory)@) == duty_views(old(advisory)@) + lead_advices(
            *s,
            *config,
            *floor,
        ),
{
    let ghost b0 = duty_views(blocking@);
    let ghost a0 = duty_views(advisory@);
    if !config.auto_approve {
        check_maintainer(&s.theses, advisory);
    }
    check_lead_candidates(&s.theses, config, blocking, advisory);
    if !ledger.is_current(s) {
        put(
            blocking,
            "sync",
            "results.tsv is stale.".to_owned(),
            "polyresearch sync".to_owned(),
        );
    }
    check_queue(s, config, advisory);
    check_floor(floor, s, config, advisory);
    assert(duty_views(blocking@) =~= b0 + lead_demands(*s, *config, *ledger));
    assert(duty_views(advisory@) =~= a0 + lead_advices(*s, *config, *floor));
}

/// What a candidate offers a node: to review it.
pub open spec fn review_offer(pr: PullRequestState, node: Seq<char>, login: Seq<char>) -> Option<
    DutyView,
> {
    let n = text::decimal(pr.pr.number as nat);
    if undecided(pr) && pr.policy_pass && !validation::opened_by(pr.pr, login) && !claimed_review(
        pr,
        node,
    ) {
        Some(
            DutyView {
                category: "review"@,
                message: "PR #"@ + n + ": needs review."@,
                command: "polyresearch review-claim "@ + n,
            },
        )
    } else {
        None
    }
}

/// The node has claimed the review of the candidate.
pub open spec fn claimed_review(pr: PullRequestState, node: Seq<char>) -> bool {
    exists|i: int|
        0 <= i < pr.review_claims@.len() && (#[trigger] pr.review_claims@[i]).node@ == node
}

/// The candidates that are offered for review.
pub open spec fn review_offers(theses: Seq<ThesisState>, node: Seq<char>, login: Seq<char>) -> Seq<
    DutyView,
>
    decreases theses.len(),
{
    if theses.len() == 0 {
        Seq::empty()
    } else {
        let rest = review_offers(theses.drop_last(), node, login);
        if theses.last().phase == ThesisPhase::InReview {
            rest + gathered(
                theses.last().pull_requests@,
                |p: PullRequestState| review_offer(p, node, login),
            )
        } else {
            rest
        }
    }
}

/// Whether a node has claimed the review of a candidate.
pub fn has_claimed_review(pr: &PullRequestState, node: &str) -> (r: bool)
    ensures
        r == claimed_review(*pr, node@),
{
    let mut i: usize = 0;
    while i < pr.review_claims.len()
        invariant
            i <= pr.review_claims.len(),
            forall|j: int| 0 <= j < i ==> (#[trigger] pr.review_claims@[j]).node@ != node@,
        decreases pr.review_claims.len() - i,
    {
        if text::same(pr.review_claims[i].node.as_str(), node) {
            assert(pr.review_claims@[i as int].node@ == node@);
            return true;
        }
        i = i + 1;
    }
    false
}

fn check_review_opportunities(
    theses: &Vec<ThesisState>,
    node: &str,
    login: &str,
    advisory: &mut Vec<DutyItem>,
) -> (added: bool)
    ensures
        duty_views(final(advisory)@) == duty_views(old(advisory)@) + review_offers(
            theses@,
            node@,
            login@,
        ),
        added == (review_offers(theses@, node@, login@).len() > 0),
{
    let ghost f = |p: PullRequestState| review_offer(p, node@, login@);
    let ghost a0 = duty_views(advisory@);
    let mut i: usize = 0;
    let before: usize = advisory.len();
    assert(theses@.take(0).len() == 0);
    assert(a0 + review_offers(theses@.take(0), node@, login@) =~= a0);
    while i < theses.len()
        invariant
            i <= theses.len(),
            f == |p: PullRequestState| review_offer(p, node@, login@),
            duty_views(advisory@) == a0 + review_offers(theses@.take(i as int), node@, login@),
        decreases theses.len() - i,
    {
        let ghost a1 = duty_views(advisory@);
        proof {
            assert(theses@.take(i + 1).drop_last() =~= theses@.take(i as int));
            assert(theses@.take(i + 1).last() == theses@[i as int]);
        }
        if theses[i].phase == ThesisPhase::InReview {
            let prs = &theses[i].pull_requests;
            let mut k: usize = 0;
            assert(prs@.take(0).len() == 0);
            assert(a1 + gathered(prs@.take(0), f) =~= a1);
            while k < prs.len()
                invariant
                    k <= prs.len(),
                    f == |p: PullRequestState| review_offer(p, node@, login@),
                    duty_views(advisory@) == a1 + gathered(prs@.take(k as int), f),
                decreases prs.len() - k,
            {
                proof {
                    assert(prs@.take(k + 1).drop_last() =~= prs@.take(k as int));
                    assert(prs@.take(k + 1).last() == prs@[k as int]);
                    assert(f(prs@[k as int]) == review_offer(prs@[k as int], node@, login@));
                }
                let pr = &prs[k];
                let mine = match &pr.pr.author {
                    Some(a) => text::same(a.login.as_str(), login),
                    None => false,
                };
                if text::same(pr.pr.state.as_str(), "OPEN") && pr.policy_pass
                    && pr.decision.is_none() && !mine && !has_claimed_review(pr, node) {
                    let mut command = "polyresearch review-claim ".to_owned();
                    command.append(text::number(pr.pr.number).as_str());
                    put(
                        advisory,
                        "review",
                        text::say("PR #", pr.pr.number, ": needs review."),
                        command,
                    );
                }
                assert(duty_views(advisory@) =~= a1 + gathered(prs@.take(k + 1), f));
                k = k + 1;
            }
            assert(prs@.take(k as int) =~= prs@);
        }
        assert(duty_views(advisory@) =~= a0 + review_offers(
            theses@.take(i + 1),
            node@,
            login@,
        ));
        i = i + 1;
    }
    assert(theses@.take(i as int) =~= theses@);
    assert(duty_views(advisory@).len() == advisory@.len());
    advisory.len() > before
}

/// How many theses a condition holds of.
pub open spec fn count_theses(theses: Seq<ThesisState>, f: spec_fn(ThesisState) -> bool) -> nat
    decreases theses.len(),
{
    if theses.len() == 0 {
        0
    } else {
        count_theses(theses.drop_last(), f) + (if f(theses.last()) {
            1nat
        } else {
            0nat
        })
    }
}

/// The thesis can be claimed.
pub open spec fn claimable(t: ThesisState) -> bool {
    t.issue.state@ == "OPEN"@ && t.phase == ThesisPhase::Approved
}

/// The node has given the thesis up for want of an improvement.
pub open spec fn gave_up(releases: Seq<ReleaseRecord>, node: Seq<char>) -> bool {
    exists|i: int|
        0 <= i < releases.len() && (#[trigger] releases[i]).node@ == node && releases[i].reason
            == ReleaseReason::NoImprovement
}

/// What a node without a claim is advised: to wait, and for what.
pub open spec fn idle_advice(
    s: RepositoryState,
    node: Seq<char>,
    has_review_work: bool,
    floor: Option<MetricFloor>,
) -> Option<DutyView> {
    let wait = "sleep 60 && polyresearch duties"@;
    let pending = count_theses(s.theses@, |t: ThesisState| awaits_maintainer(t));
    if has_review_work {
        None
    } else if s.queue_depth == 0 {
        Some(
            DutyView {
                category: "idle"@,
                message: "Queue is empty. Wait for the lead to generate theses. Do not assume lead duties."@,
                command: wait,
            },
        )
    } else if count_theses(s.theses@, |t: ThesisState| claimable(t)) == 0 {
        if pending > 0 {
            Some(
                DutyView {
                    category: "awaiting-approval"@,
                    message: "No approved theses are currently claimable. "@ + text::decimal(pending)
                        + " "@ + (if pending == 1 {
                        "thesis is"@
                    } else {
                        "theses are"@
                    }) + " still awaiting maintainer `/approve`."@,
                    command: wait,
                },
            )
        } else {
            None
        }
    } else if floor is Some {
        Some(
            DutyView {
                category: "no-claimable-work"@,
                message: "Best metric ("@ + floor->Some_0.best@
                    + ") is already within metric_tolerance ("@ + floor->Some_0.tolerance@
                    + ") of the limit. Remaining theses may not support another meaningful improvement. Wait for fresh theses from the lead."@,
                command: wait,
            },
        )
    } else if node.len() > 0 && count_theses(
        s.theses@,
        |t: ThesisState| claimable(t) && !gave_up(t.releases@, node),
    ) == 0 {
        Some(
            DutyView {
                category: "no-claimable-work"@,
                message: "All claimable theses have been tried by this node. Waiting for fresh theses from the lead."@,
                command: wait,
            },
        )
    } else {
        None
    }
}

/// Whether a node has given the thesis up for want of an improvement.
pub fn has_given_up(releases: &Vec<ReleaseRecord>, node: &str) -> (r: bool)
    ensures
        r == gave_up(releases@, node@),
{
    let mut i: usize = 0;
    while i < releases.len()
        invariant
            i <= releases.len(),
            forall|j: int|
                0 <= j < i ==> !((#[trigger] releases@[j]).node@ == node@ && releases@[j].reason
                    == ReleaseReason::NoImprovement),
        decreases releases.len() - i,
    {
        if text::same(releases[i].node.as_str(), node) && releases[i].reason
            == ReleaseReason::NoImprovement {
            assert(releases@[i as int].node@ == node@);
            return true;
        }
        i = i + 1;
    }
    false
}

fn count_pending(theses: &Vec<ThesisState>) -> (r: usize)
    ensures
        r == count_theses(theses@, |t: ThesisState| awaits_maintainer(t)),
{
    let ghost f = |t: ThesisState| awaits_maintainer(t);
    let mut n: usize = 0;
    let mut i: usize = 0;
    assert(theses@.take(0).len() == 0);
    while i < theses.len()
        invariant
            i <= theses.len(),
            n <= i,
            f == |t: ThesisState| awaits_maintainer(t),
            n == count_theses(theses@.take(i as int), f),
        decreases theses.len() - i,
    {
        let t = &theses[i];
        proof {
            assert(theses@.take(i + 1).drop_last() =~= theses@.take(i as int));
            assert(theses@.take(i + 1).last() == theses@[i as int]);
            assert(f(theses@[i as int]) == awaits_maintainer(theses@[i as int]));
        }
        if text::same(t.issue.state.as_str(), "OPEN") && t.phase == ThesisPhase::Submitted
            && !t.maintainer_rejected {
            n = n + 1;
        }
        i = i + 1;
    }
    assert(theses@.take(i as int) =~= theses@);
    n
}

/// How many theses can be claimed.
pub fn count_claimable(theses: &Vec<ThesisState>) -> (r: usize)
    ensures
        r == count_theses(theses@, |t: ThesisState| claimable(t)),
{
    let ghost f = |t: ThesisState| claimable(t);
    let mut n: usize = 0;
    let mut i: usize = 0;
    assert(theses@.take(0).len() == 0);
    while i < theses.len()
        invariant
            i <= theses.len(),
            n <= i,
            f == |t: ThesisState| claimable(t),
            n == count_theses(theses@.take(i as int), f),
        decreases theses.len() - i,
    {
        proof {
            assert(theses@.take(i + 1).drop_last() =~= theses@.take(i as int));
            assert(theses@.take(i + 1).last() == theses@[i as int]);
            assert(f(theses@[i as int]) == claimable(theses@[i as int]));
        }
        if text::same(theses[i].issue.state.as_str(), "OPEN") && theses[i].phase
            == ThesisPhase::Approved {
            n = n + 1;
        }
        i = i + 1;
    }
    assert(theses@.take(i as int) =~= theses@);
    n
}

fn count_claimable_by(theses: &Vec<ThesisState>, node: &str) -> (r: usize)
    ensures
        r == count_theses(
            theses@,
            |t: ThesisState| claimable(t) && !gave_up(t.releases@, node@),
        ),
{
    let ghost f = |t: ThesisState| claimable(t) && !gave_up(t.releases@, node@);
    let mut n: usize = 0;
    let mut i: usize = 0;
    assert(theses@.take(0).len() == 0);
    while i < theses.len()
        invariant
            i <= theses.len(),
            n <= i,
            f == |t: ThesisState| claimable(t) && !gave_up(t.releases@, node@),
            n == count_theses(theses@.take(i as int), f),
        decreases theses.len() - i,
    {
        proof {
            assert(theses@.take(i + 1).drop_last() =~= theses@.take(i as int));
            assert(theses@.take(i + 1).last() == theses@[i as int]);
            assert(f(theses@[i as int]) == (claimable(theses@[i as int]) && !gave_up(
                theses@[i as int].releases@,
                node@,
            )));
        }
        if text::same(theses[i].issue.state.as_str(), "OPEN") && theses[i].phase
            == ThesisPhase::Approved && !has_given_up(&theses[i].releases, node) {
            n = n + 1;
        }
        i = i + 1;
    }
    assert(theses@.take(i as int) =~= theses@);
    n
}

fn check_contributor_idle_state(
    s: &RepositoryState,
    node: &str,
    has_review_work: bool,
    floor: &Option<MetricFloor>,
    advisory: &mut Vec<DutyItem>,
)
    ensures
        duty_views(final(advisory)@) == (match idle_advice(*s, node@, has_review_work, *floor) {
            Some(d) => duty_views(old(advisory)@).push(d),
            None => duty_views(old(advisory)@),
        }),
{
    if has_review_work {
        return;
    }
    let wait = "sleep 60 && polyresearch duties".to_owned();
    if s.queue_depth == 0 {
        put(
            advisory,
            "idle",
            "Queue is empty. Wait for the lead to generate theses. Do not assume lead duties.".to_owned(),
            wait,
        );
        return;
    }
    if count_claimable(&s.theses) == 0 {
        let pending: usize = count_pending(&s.theses);
        if pending > 0 {
            let mut message = text::say(
                "No approved theses are currently claimable. ",
                pending as u64,
                " ",
            );
            if pending == 1 {
                message.append("thesis is");
            } else {
                message.append("theses are");
            }
            message.append(" still awaiting maintainer `/approve`.");
            put(advisory, "awaiting-approval", message, wait);
        }
        return;
    }
    if let Some(f) = floor {
        let mut message = "Best metric (".to_owned();
        message.append(f.best.as_str());
        message.append(") is already within metric_tolerance (");
        message.append(f.tolerance.as_str());
        message.append(
            ") of the limit. Remaining theses may not support another meaningful improvement. Wait for fresh theses from the lead.",
        );
        put(advisory, "no-claimable-work", message, wait);
        return;
    }
    if node.unicode_len() == 0 {
        return;
    }
    if count_claimable_by(&s.theses, node) == 0 {
        put(
            advisory,
            "no-claimable-work",
            "All claimable theses have been tried by this node. Waiting for fresh theses from the lead.".to_owned(),
            wait,
        );
    }
}

/// All that demands something of a node.
pub open spec fn demands(
    s: RepositoryState,
    config: ProtocolConfig,
    ledger: Ledger,
    node: Seq<char>,
    login: Seq<char>,
    context: DutyContext,
) -> Seq<DutyView> {
    let own = gathered(s.theses@, |t: ThesisState| claim_demand(t, node));
    if validation::is_lead(login, config) && context == DutyContext::Lead {
        own + lead_demands(s, config, ledger)
    } else {
        own
    }
}

/// All that advises a node.
pub open spec fn advices(
    s: RepositoryState,
    config: ProtocolConfig,
    floor: Option<MetricFloor>,
    node: Seq<char>,
    login: Seq<char>,
    context: DutyContext,
) -> Seq<DutyView> {
    let lead = validation::is_lead(login, config);
    let own = gathered(s.theses@, |t: ThesisState| claim_advice(t, node));
    let led = if lead && context == DutyContext::Lead {
        own + lead_advices(s, config, floor)
    } else {
        own
    };
    let offers = review_offers(s.theses@, node, login);
    let all = led + offers;
    if !lead || context == DutyContext::Contribute {
        match idle_advice(s, node, offers.len() > 0, floor) {
            Some(d) => all.push(d),
            None => all,
        }
    } else {
        all
    }
}

/// What a node has to do: what its claims demand and advise, what the lead has to see to, the
/// candidates that it may review, and what to wait for. Nothing that blocks means a clean report.
pub fn check(
    s: &RepositoryState,
    config: &ProtocolConfig,
    ledger: &Ledger,
    floor: &Option<MetricFloor>,
    node_id: &str,
    login: &str,
    context: DutyContext,
) -> (r: DutyReport)
    ensures
        duty_views(r.blocking@) == demands(*s, *config, *ledger, node_id@, login@, context),
        duty_views(r.advisory@) == advices(*s, *config, *floor, node_id@, login@, context),
        r.clean == (r.blocking@.len() == 0),
{
    let is_lead = match &config.lead_github_login {
        Some(lead) => text::same(lead.as_str(), login),
        None => false,
    };
    let mut blocking: Vec<DutyItem> = Vec::new();
    let mut advisory: Vec<DutyItem> = Vec::new();
    let ghost f = |t: ThesisState| claim_demand(t, node_id@);
    let ghost g = |t: ThesisState| claim_advice(t, node_id@);
    let mut i: usize = 0;
    proof {
        assert(s.theses@.take(0).len() == 0);
        assert(duty_views(blocking@) =~= Seq::<DutyView>::empty());
        assert(duty_views(advisory@) =~= Seq::<DutyView>::empty());
    }
    while i < s.theses.len()
        invariant
            i <= s.theses.len(),
            f == |t: ThesisState| claim_demand(t, node_id@),
            g == |t: ThesisState| claim_advice(t, node_id@),
            duty_views(blocking@) == gathered(s.theses@.take(i as int), f),
            duty_views(advisory@) == gathered(s.theses@.take(i as int), g),
        decreases s.theses.len() - i,
    {
        proof {
            assert(s.theses@.take(i + 1).drop_last() =~= s.theses@.take(i as int));
            assert(s.theses@.take(i + 1).last() == s.theses@[i as int]);
            assert(f(s.theses@[i as int]) == claim_demand(s.theses@[i as int], node_id@));
            assert(g(s.theses@[i as int]) == claim_advice(s.theses@[i as int], node_id@));
        }
        check_claim(&s.theses[i], node_id, &mut blocking, &mut advisory);
        i = i + 1;
    }
    assert(s.theses@.take(i as int) =~= s.theses@);
    if is_lead && context == DutyContext::Lead {
        check_lead_duties(s, config, ledger, floor, &mut blocking, &mut advisory);
    }
    let has_review_work = check_review_opportunities(&s.theses, node_id, login, &mut advisory);
    if !is_lead || context == DutyContext::Contribute {
        check_contributor_idle_state(s, node_id, has_review_work, floor, &mut advisory);
    }
    let clean = blocking.len() == 0;
    DutyReport { blocking, advisory, clean }
}

/// What a node has to do before it may claim a thesis: its duties as a contributor.
pub fn claim_gate(
    s: &RepositoryState,
    config: &ProtocolConfig,
    ledger: &Ledger,
    floor: &Option<MetricFloor>,
    node_id: &str,
    login: &str,
) -> (r: DutyReport)
    ensures
        duty_views(r.blocking@) == demands(
            *s,
            *config,
            *ledger,
            node_id@,
            login@,
            DutyContext::Contribute,
        ),
        duty_views(r.advisory@) == advices(
            *s,
            *config,
            *floor,
            node_id@,
            login@,
            DutyContext::Contribute,
        ),
        r.clean == (r.blocking@.len() == 0),
{
    check(s, config, ledger, floor, node_id, login, DutyContext::Contribute)
}

/// A thing to do as a refusal lists it.
pub open spec fn duty_entry(d: DutyView) -> Seq<char> {
    "  ["@ + d.category + "] "@ + d.message + " Run: "@ + d.command
}

/// What is said where things to do stand in the way.
pub open spec fn blocked(start: Seq<char>, items: Seq<DutyView>) -> Seq<char> {
    start + text::joined(items.map_values(|d: DutyView| duty_entry(d)), "\n"@)
}

/// Goes ahead only where nothing is to be done first.
pub fn ensure_unblocked(start: &str, items: &Vec<DutyItem>) -> (r: Result<(), String>)
    ensures
        if items@.len() == 0 {
            r is Ok
        } else {
            r matches Err(e) && e@ == blocked(start@, duty_views(items@))
        },
{
    if items.len() == 0 {
        return Ok(());
    }
    let ghost all = duty_views(items@).map_values(|d: DutyView| duty_entry(d));
    let mut entries: Vec<String> = Vec::new();
    let mut i: usize = 0;
    assert(text::texts(entries@) =~= all.take(0));
    while i < items.len()
        invariant
            i <= items.len(),
            all == duty_views(items@).map_values(|d: DutyView| duty_entry(d)),
            text::texts(entries@) == all.take(i as int),
        decreases items.len() - i,
    {
        let mut line = "  [".to_owned();
        line.append(items[i].category.as_str());
        line.append("] ");
        line.append(items[i].message.as_str());
        line.append(" Run: ");
        line.append(items[i].command.as_str());
        let ghost before = entries@;
        entries.push(line);
        proof {
            text::lemma_texts_push(before, entries@.last());
            assert(all[i as int] == duty_entry(items@[i as int]@));
            assert(all.take(i + 1) =~= all.take(i as int).push(all[i as int]));
        }
        i = i + 1;
    }
    assert(all.take(i as int) =~= all);
    let mut m = start.to_owned();
    m.append(text::join(&entries, "\n").as_str());
    Err(m)
}

/// The line that shows something to do.
pub open spec fn duty_line(d: DutyView) -> Seq<char> {
    "  ["@ + d.category + "] "@ + d.message + " Run: "@ + d.command + "\n"@
}

/// The lines that show things to do, behind what was written before.
pub open spec fn duty_lines(start: Seq<char>, items: Seq<DutyView>) -> Seq<char>
    decreases items.len(),
{
    if items.len() == 0 {
        start
    } else {
        duty_lines(start, items.drop_last()) + duty_line(items.last())
    }
}

/// The report as it is shown.
pub open spec fn shown_report(blocking: Seq<DutyView>, advisory: Seq<DutyView>) -> Seq<char> {
    if blocking.len() == 0 && advisory.len() == 0 {
        "No duties. All clear.\nNEXT: sleep 60 && polyresearch duties"@
    } else {
        let first = if blocking.len() > 0 {
            duty_lines("BLOCKING (resolve before continuing):\n"@, blocking)
        } else {
            Seq::empty()
        };
        let second = if advisory.len() > 0 {
            duty_lines(
                (if blocking.len() > 0 {
                    first + "\n"@
                } else {
                    first
                }) + "ADVISORY:\n"@,
                advisory,
            )
        } else {
            first
        };
        text::trimmed_end(second)
    }
}

fn write_lines(start: String, items: &Vec<DutyItem>) -> (r: String)
    ensures
        r@ == duty_lines(start@, duty_views(items@)),
{
    let ghost all = duty_views(items@);
    let ghost s0 = start@;
    let mut r = start;
    let mut i: usize = 0;
    assert(all.take(0).len() == 0);
    while i < items.len()
        invariant
            i <= items.len(),
            all == duty_views(items@),
            r@ == duty_lines(s0, all.take(i as int)),
        decreases items.len() - i,
    {
        proof {
            assert(all.take(i + 1).drop_last() =~= all.take(i as int));
            assert(all.take(i + 1).last() == items@[i as int]@);
        }
        let mut line = "  [".to_owned();
        line.append(items[i].category.as_str());
        line.append("] ");
        line.append(items[i].message.as_str());
        line.append(" Run: ");
        line.append(items[i].command.as_str());
        line.append("\n");
        r.append(line.as_str());
        i = i + 1;
    }
    assert(all.take(i as int) =~= all);
    r
}

/// The report as it is shown.
pub fn render_report(value: &DutyReport) -> (r: String)
    ensures
        r@ == shown_report(duty_views(value.blocking@), duty_views(value.advisory@)),
{
    assert(duty_views(value.blocking@).len() == value.blocking@.len());
    assert(duty_views(value.advisory@).len() == value.advisory@.len());
    if value.blocking.len() == 0 && value.advisory.len() == 0 {
        return "No duties. All clear.\nNEXT: sleep 60 && polyresearch duties".to_owned();
    }
    let mut output = String::new();
    assert(output@ =~= Seq::<char>::empty());
    if value.blocking.len() > 0 {
        output = write_lines(
            "BLOCKING (resolve before continuing):\n".to_owned(),
            &value.blocking,
        );
    }
    if value.advisory.len() > 0 {
        if value.blocking.len() > 0 {
            output.append("\n");
        }
        output.append("ADVISORY:\n");
        output = write_lines(output, &value.advisory);
    }
    text::trim_end(output.as_str()).to_owned()
}

/// A node that holds no thesis, and is not asked in the lead's role, has nothing that blocks it.
pub proof fn a_free_node_is_not_blocked(
    s: RepositoryState,
    config: ProtocolConfig,
    ledger: Ledger,
    node: Seq<char>,
    login: Seq<char>,
    context: DutyContext,
)
    requires
        forall|i: int| 0 <= i < s.theses@.len() ==> !(#[trigger] s.theses@[i]).held_by(node),
        !validation::is_lead(login, config) || context == DutyContext::Contribute,
    ensures
        demands(s, config, ledger, node, login, context).len() == 0,
{
    lemma_nothing_claimed(s.theses@, node);
}

proof fn lemma_nothing_claimed(theses: Seq<ThesisState>, node: Seq<char>)
    requires
        forall|i: int| 0 <= i < theses.len() ==> !(#[trigger] theses[i]).held_by(node),
    ensures
        gathered(theses, |t: ThesisState| claim_demand(t, node)).len() == 0,
    decreases theses.len(),
{
    if theses.len() > 0 {
        assert forall|i: int| 0 <= i < theses.drop_last().len() implies !(
        #[trigger] theses.drop_last()[i]).held_by(node) by {
            assert(theses.drop_last()[i] == theses[i]);
        }
        lemma_nothing_claimed(theses.drop_last(), node);
        assert(!theses[theses.len() - 1].held_by(node));
    }
}

} // verus!
