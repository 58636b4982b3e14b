//! What holds of what the lead does.
use crate::cli::{AdminAcknowledgeInvalidArgs, AdminReleaseClaimArgs, AdminReopenThesisArgs};
use crate::commands::admin;
use crate::commands::admin::AdminOutput;
use crate::commands::audit;
use crate::commands::audit::AuditOutput;
use crate::commands::lead;
use crate::commands::lead::{
    LeadAction, LeadEvent, LeadPlan, LeadStep, SweepItem, SweepMove, SweepView,
};
use crate::comments::{CommentView, Outcome, ProtocolComment};
use crate::config::{NodeConfig, ProtocolConfig};
use crate::ledger::Ledger;
use crate::laws::permissions;
use crate::state::{PullRequestState, RepositoryState, ThesisState};
use crate::text;
use crate::validation;
use crate::validation::{AuditFinding, AuditScope, AuditSeverity, FindingView};
use vstd::prelude::*;

verus! {

/// What the lead does next: after its agent it reads the state, decides what is ready, whatever came
/// of the decisions, and looks at the queue. It stops once the queue holds what it must, or cannot
/// be looked at; a queue that is too short is filled by one more agent and looked at again. Where
/// that fails, or an agent does, the lead gives up where it was to run once, and else waits and
/// starts over.
pub proof fn what_the_lead_does_next(
    plan: LeadPlan,
    done: LeadAction,
    event: LeadEvent,
    r: LeadStep,
)
    requires
        call_ensures(LeadPlan::next, (&plan, done, event), r),
    ensures
        done is RunAgent && !(event is Failed) ==> r.action is ReadState,
        done is ReadState && !(event is Failed) ==> r.action is Sweep,
        done is ReadState && event is Failed ==> r.action is Stop,
        done is Sweep ==> r.action is ReadQueue,
        done is ReadQueue ==> (r.action is Refill <==> (event matches LeadEvent::Queue { depth }
            && depth < plan.min_queue_depth)),
        done is ReadQueue && r.action is Refill ==> r.action == (LeadAction::Refill {
            depth: event->depth,
        }),
        done is ReadQueue && !(r.action is Refill) ==> r.action is Stop,
        done is Refill && !(event is Failed) ==> r.action is ReadRefilled,
        done is ReadRefilled ==> (r.action is Stop <==> !(event is Failed) && !(event matches
            LeadEvent::Queue { depth } && depth < plan.min_queue_depth)),
        (done is RunAgent || done is Refill) && event is Failed ==> (if plan.once {
            r.action matches LeadAction::Fail { message } && message@ == event->message@
        } else {
            r.action is Pause
        }),
        done is ReadRefilled && !(r.action is Stop) ==> (if plan.once {
            r.action is Fail
        } else {
            r.action is Pause
        }),
        done is Pause ==> r.action is RunAgent,
        done is Stop ==> r.action is Stop,
        done is Fail ==> r.action is Fail,
{
    assert(r.action@ == plan.after(done, event).1);
}

/// The command of the node's own configuration comes first, then the one that was given.
pub proof fn whose_command_starts_the_agent(
    node: Option<NodeConfig>,
    given: Option<String>,
    program: &str,
    r: String,
)
    requires
        call_ensures(lead::agent_command, (&node, &given, program), r),
    ensures
        node matches Some(c) ==> r@ == c.agent.command@,
        node is None && given is Some ==> r@ == given->Some_0@,
{
}

/// The candidate is ready to be decided.
pub open spec fn is_ready(config: ProtocolConfig, p: PullRequestState) -> bool {
    &&& p.pr.state@ == "OPEN"@
    &&& p.policy_pass
    &&& p.decision is None
    &&& !p.maintainer_rejected
    &&& !config.auto_approve ==> p.maintainer_approved
    &&& p.reviews@.len() >= config.required_confirmations
}

/// The candidate conflicts with the default branch.
pub open spec fn is_conflicting(p: PullRequestState) -> bool {
    p.pr.mergeable matches Some(m) && m@ == "CONFLICTING"@
}

/// The action is that for the candidate of the thesis: one that conflicts is closed as stale, for its
/// thesis and its head; any other one is decided; and a dry run does neither.
pub open spec fn fits(
    t: ThesisState,
    p: PullRequestState,
    dry_run: bool,
    a: SweepMove,
) -> bool {
    if is_conflicting(p) {
        if dry_run {
            a is WouldClose
        } else {
            a matches SweepMove::CloseStale { comment } && (comment matches CommentView::Decision {
                thesis,
                candidate_sha,
                outcome,
                confirmations,
            } && thesis == t.issue.number && outcome == Outcome::Stale && confirmations == 0 && (
            p.pr.head_ref_oid matches Some(h) ==> candidate_sha == h@))
        }
    } else if dry_run {
        a is WouldDecide
    } else {
        a is Decide
    }
}

proof fn lemma_sweep_thesis(
    config: ProtocolConfig,
    t: ThesisState,
    prs: Seq<PullRequestState>,
    at: int,
    dry_run: bool,
)
    ensures
        ({
            let v = lead::sweep_thesis(config, t, prs, at, dry_run);
            &&& forall|m: int|
                0 <= m < v.len() ==> {
                    let x = #[trigger] v[m];
                    x.thesis == at && 0 <= x.candidate < prs.len() && is_ready(
                        config,
                        prs[x.candidate],
                    ) && fits(t, prs[x.candidate], dry_run, x.action)
                }
            &&& forall|k: int|
                0 <= k < prs.len() && is_ready(config, #[trigger] prs[k]) ==> swept(v, at, k)
            &&& forall|m: int, n: int|
                0 <= m < n < v.len() ==> (#[trigger] v[m]).candidate < (#[trigger] v[n]).candidate
        }),
    decreases prs.len(),
{
    if prs.len() > 0 {
        let rest = prs.drop_last();
        lemma_sweep_thesis(config, t, rest, at, dry_run);
        let a = lead::sweep_thesis(config, t, rest, at, dry_run);
        let b = lead::sweep_thesis(config, t, prs, at, dry_run);
        let last = prs.last();
        assert(lead::conflicts(last) <==> is_conflicting(last));
        assert forall|k: int| 0 <= k < prs.len() && is_ready(config, #[trigger] prs[k]) implies swept(
            b,
            at,
            k,
        ) by {
            if k < rest.len() {
                assert(rest[k] == prs[k]);
                assert(swept(a, at, k));
                let m = choose|m: int|
                    0 <= m < a.len() && (#[trigger] a[m]).thesis == at && a[m].candidate == k;
                assert(b[m] == a[m]);
            } else {
                assert(b[a.len() as int].candidate == k);
            }
        }
        assert forall|m: int| 0 <= m < b.len() implies ({
            let x = #[trigger] b[m];
            x.thesis == at && 0 <= x.candidate < prs.len() && is_ready(config, prs[x.candidate])
                && fits(t, prs[x.candidate], dry_run, x.action)
        }) by {
            if m < a.len() {
                assert(b[m] == a[m]);
                assert(rest[a[m].candidate] == prs[a[m].candidate]);
            }
        }
        assert forall|m: int, n: int| 0 <= m < n < b.len() implies (#[trigger] b[m]).candidate < (
        #[trigger] b[n]).candidate by {
            assert(b[m] == a[m]);
            if n < a.len() {
                assert(b[n] == a[n]);
            }
        }
    }
}

/// The sweep has something for the candidate at the place.
pub open spec fn swept(v: Seq<SweepView>, at: int, k: int) -> bool {
    exists|m: int| 0 <= m < v.len() && (#[trigger] v[m]).thesis == at && v[m].candidate == k
}

/// The first stands before the second: in an earlier thesis, or in the same one and earlier there.
pub open spec fn stands_before(a: SweepView, b: SweepView) -> bool {
    a.thesis < b.thesis || (a.thesis == b.thesis && a.candidate < b.candidate)
}

proof fn lemma_sweep(config: ProtocolConfig, theses: Seq<ThesisState>, dry_run: bool)
    ensures
        ({
            let v = lead::sweep_all(config, theses, dry_run);
            &&& forall|m: int|
                0 <= m < v.len() ==> {
                    let x = #[trigger] v[m];
                    0 <= x.thesis < theses.len() && 0 <= x.candidate
                        < theses[x.thesis].pull_requests@.len() && is_ready(
                        config,
                        theses[x.thesis].pull_requests@[x.candidate],
                    ) && fits(
                        theses[x.thesis],
                        theses[x.thesis].pull_requests@[x.candidate],
                        dry_run,
                        x.action,
                    )
                }
            &&& forall|i: int, k: int|
                #![trigger theses[i].pull_requests@[k]]
                0 <= i < theses.len() && 0 <= k < theses[i].pull_requests@.len() && is_ready(
                    config,
                    theses[i].pull_requests@[k],
                ) ==> swept(v, i, k)
            &&& forall|m: int, n: int|
                0 <= m < n < v.len() ==> stands_before(#[trigger] v[m], #[trigger] v[n])
        }),
    decreases theses.len(),
{
    if theses.len() > 0 {
        let rest = theses.drop_last();
        let t = theses.last();
        let n0 = theses.len() - 1;
        lemma_sweep(config, rest, dry_run);
        lemma_sweep_thesis(config, t, t.pull_requests@, n0, dry_run);
        let a = lead::sweep_all(config, rest, dry_run);
        let b = lead::sweep_thesis(config, t, t.pull_requests@, n0, dry_run);
        let v = lead::sweep_all(config, theses, dry_run);
        assert forall|m: int| 0 <= m < v.len() implies ({
            let x = #[trigger] v[m];
            0 <= x.thesis < theses.len() && 0 <= x.candidate < theses[x.thesis].pull_requests@.len()
                && is_ready(config, theses[x.thesis].pull_requests@[x.candidate]) && fits(
                theses[x.thesis],
                theses[x.thesis].pull_requests@[x.candidate],
                dry_run,
                x.action,
            )
        }) by {
            if m < a.len() {
                assert(v[m] == a[m]);
                assert(rest[a[m].thesis] == theses[a[m].thesis]);
            } else {
                assert(v[m] == b[m - a.len()]);
            }
        }
        assert forall|i: int, k: int|
            #![trigger theses[i].pull_requests@[k]]
            0 <= i < theses.len() && 0 <= k < theses[i].pull_requests@.len() && is_ready(
                config,
                theses[i].pull_requests@[k],
            ) implies swept(v, i, k) by {
            if i < n0 {
                assert(rest[i].pull_requests@[k] == theses[i].pull_requests@[k]);
                assert(swept(a, i, k));
                let m = choose|m: int|
                    0 <= m < a.len() && (#[trigger] a[m]).thesis == i && a[m].candidate == k;
                assert(v[m] == a[m]);
            } else {
                assert(t.pull_requests@[k] == theses[i].pull_requests@[k]);
                assert(swept(b, n0, k));
                let m = choose|m: int|
                    0 <= m < b.len() && (#[trigger] b[m]).thesis == n0 && b[m].candidate == k;
                assert(v[a.len() + m] == b[m]);
            }
        }
        assert forall|m: int, n: int| 0 <= m < n < v.len() implies stands_before(
            #[trigger] v[m],
            #[trigger] v[n],
        ) by {
            if n < a.len() {
                assert(v[m] == a[m] && v[n] == a[n]);
            } else if m < a.len() {
                assert(v[m] == a[m] && v[n] == b[n - a.len()]);
                assert(b[n - a.len()].thesis == n0);
                assert(a[m].thesis < rest.len());
            } else {
                assert(v[m] == b[m - a.len()] && v[n] == b[n - a.len()]);
            }
        }
    }
}

/// Where no reviews are wanted, nothing is decided unless the ledger is there and current. Otherwise
/// the sweep takes up exactly the candidates that are ready, each once and in their order, and does
/// with each what fits it.
pub proof fn what_a_sweep_decides(
    config: ProtocolConfig,
    s: RepositoryState,
    ledger: Option<Ledger>,
    dry_run: bool,
    current: bool,
    r: Option<Vec<SweepItem>>,
)
    requires
        call_ensures(lead::decide_ready_prs, (&config, &s, &ledger, dry_run), r),
        ledger matches Some(l) ==> call_ensures(Ledger::is_current, (&l, &s), current),
    ensures
        r is None <==> config.required_confirmations == 0 && !(ledger is Some && current),
        r matches Some(items) ==> {
            &&& forall|m: int|
                0 <= m < items@.len() ==> {
                    let x = #[trigger] items@[m];
                    x.thesis < s.theses@.len() && x.candidate
                        < s.theses@[x.thesis as int].pull_requests@.len() && is_ready(
                        config,
                        s.theses@[x.thesis as int].pull_requests@[x.candidate as int],
                    ) && fits(
                        s.theses@[x.thesis as int],
                        s.theses@[x.thesis as int].pull_requests@[x.candidate as int],
                        dry_run,
                        x.action@,
                    )
                }
            &&& forall|i: int, k: int|
                #![trigger s.theses@[i].pull_requests@[k]]
                0 <= i < s.theses@.len() && 0 <= k < s.theses@[i].pull_requests@.len() && is_ready(
                    config,
                    s.theses@[i].pull_requests@[k],
                ) ==> exists|m: int|
                    0 <= m < items@.len() && (#[trigger] items@[m]).thesis == i
                        && items@[m].candidate == k
            &&& forall|m: int, n: int|
                0 <= m < n < items@.len() ==> stands_before(
                    (#[trigger] items@[m])@,
                    (#[trigger] items@[n])@,
                )
        },
{
    lemma_sweep(config, s.theses@, dry_run);
    if r is Some {
        let items = r->Some_0@;
        let v = lead::sweep_all(config, s.theses@, dry_run);
        assert(lead::item_views(items) == v);
        assert(lead::item_views(items).len() == items.len());
        assert forall|m: int| 0 <= m < items.len() implies (#[trigger] items[m])@ == v[m] by {
            assert(lead::item_views(items)[m] == items[m]@);
        }
        assert forall|i: int, k: int|
            #![trigger s.theses@[i].pull_requests@[k]]
            0 <= i < s.theses@.len() && 0 <= k < s.theses@[i].pull_requests@.len() && is_ready(
                config,
                s.theses@[i].pull_requests@[k],
            ) implies exists|m: int|
            0 <= m < items.len() && (#[trigger] items[m]).thesis == i && items[m].candidate == k by {
            assert(swept(v, i, k));
            let m = choose|m: int|
                0 <= m < v.len() && (#[trigger] v[m]).thesis == i && v[m].candidate == k;
            assert(items[m]@ == v[m]);
        }
    }
}

proof fn lemma_counted(findings: Seq<FindingView>, severity: AuditSeverity)
    ensures
        audit::count_of(findings, severity) == findings.filter(
            |f: FindingView| f.severity == severity,
        ).len(),
    decreases findings.len(),
{
    reveal(Seq::filter);
    if findings.len() > 0 {
        lemma_counted(findings.drop_last(), severity);
    }
}

/// An audit tells of every finding as it was found, and of one more, without a comment, exactly
/// where the ledger is not current; and it counts the findings of each severity.
pub proof fn what_an_audit_tells(
    repo: String,
    s: RepositoryState,
    ledger: Ledger,
    current: bool,
    r: AuditOutput,
)
    requires
        call_ensures(audit::audit, (repo, &s, &ledger), r),
        call_ensures(Ledger::is_current, (&ledger, &s), current),
    ensures
        r.ledger_current == current,
        ({
            let told = validation::finding_views(r.findings@);
            let found = validation::finding_views(s.audit_findings@);
            &&& current ==> told == found
            &&& !current ==> told.len() == found.len() + 1 && told.drop_last() == found
                && told.last().scope is Repository && told.last().severity == AuditSeverity::Info
                && told.last().comment_id is None
            &&& r.invalid_count == told.filter(
                |f: FindingView| f.severity == AuditSeverity::Invalid,
            ).len()
            &&& r.suspicious_count == told.filter(
                |f: FindingView| f.severity == AuditSeverity::Suspicious,
            ).len()
            &&& r.info_count == told.filter(
                |f: FindingView| f.severity == AuditSeverity::Info,
            ).len()
        }),
{
    let told = validation::finding_views(r.findings@);
    let found = validation::finding_views(s.audit_findings@);
    lemma_counted(told, AuditSeverity::Invalid);
    lemma_counted(told, AuditSeverity::Suspicious);
    lemma_counted(told, AuditSeverity::Info);
    if !current {
        assert(told.drop_last() =~= found);
    }
}

/// The lead may release a claim exactly where the node holds the thesis, even a closed one; what is
/// posted is a note of it and then the release, for that thesis, node and reason.
pub proof fn how_the_lead_releases_a_claim(
    s: RepositoryState,
    args: AdminReleaseClaimArgs,
    i: int,
    r: Result<(Vec<ProtocolComment>, AdminOutput), String>,
)
    requires
        call_ensures(admin::release_claim, (&s, &args), r),
        permissions::thesis_is_at(s, args.issue, i),
    ensures
        r is Ok <==> exists|k: int|
            0 <= k < s.theses@[i].active_claims@.len() && (
            #[trigger] s.theses@[i].active_claims@[k]).node@ == args.node@,
        r matches Ok((c, o)) ==> c@.len() == 2 && (c@[0] matches ProtocolComment::AdminNote {
            action,
            note,
            related_comment_id,
            ..
        } && action@ == "release_claim"@ && note@ == args.note@ && related_comment_id is None) && (
        c@[1] matches ProtocolComment::Release { thesis, node, reason } && thesis == args.issue
            && node@ == args.node@ && reason == args.reason),
{
    permissions::a_thesis_is_found_by_its_place(s, args.issue, i);
    if r is Ok {
        let c = r->Ok_0.0@;
        let v = c.map_values(|x: ProtocolComment| x@);
        assert(v == admin::release_comments(args));
        assert(v.len() == c.len());
        assert(v[0] == c[0]@ && v[1] == c[1]@);
    }
}

proof fn lemma_finding(findings: Seq<AuditFinding>, id: u64, from: int)
    requires
        0 <= from,
        forall|j: int|
            0 <= j < from && j < findings.len() ==> (#[trigger] findings[j]).comment_id != Some(id),
    ensures
        match admin::finding_at(findings, id, from) {
            Some(i) => first_finding(findings, id, i),
            None => forall|j: int|
                0 <= j < findings.len() ==> (#[trigger] findings[j]).comment_id != Some(id),
        },
    decreases findings.len() - from,
{
    if from < findings.len() && findings[from].comment_id != Some(id) {
        lemma_finding(findings, id, from + 1);
    }
}

/// The finding at the place is the first one about the comment.
pub open spec fn first_finding(findings: Seq<AuditFinding>, id: u64, i: int) -> bool {
    &&& 0 <= i < findings.len()
    &&& findings[i].comment_id == Some(id)
    &&& forall|j: int| 0 <= j < i ==> (#[trigger] findings[j]).comment_id != Some(id)
}

/// A comment is acknowledged exactly where something was found about it, on the issue or candidate
/// that the first such finding is about, by a note that names the comment.
pub proof fn how_a_finding_is_acknowledged(
    s: RepositoryState,
    args: AdminAcknowledgeInvalidArgs,
    r: Result<(u64, ProtocolComment, AdminOutput), String>,
)
    requires
        call_ensures(admin::acknowledge_invalid, (&s, &args), r),
    ensures
        (forall|j: int|
            0 <= j < s.audit_findings@.len() ==> (#[trigger] s.audit_findings@[j]).comment_id
                != Some(args.comment_id)) ==> r is Err,
        forall|i: int| #[trigger]
            first_finding(s.audit_findings@, args.comment_id, i) ==> (r is Err
                <==> s.audit_findings@[i].scope is Repository),
        r matches Ok((n, c, o)) ==> (exists|i: int| #[trigger]
            first_finding(s.audit_findings@, args.comment_id, i) && (
            s.audit_findings@[i].scope == (AuditScope::Issue { number: n })
                || s.audit_findings@[i].scope == (AuditScope::PullRequest { number: n }))) && (
        c matches ProtocolComment::AdminNote { action, note, related_comment_id, .. } && action@
            == "acknowledge_invalid"@ && note@ == args.note@ && related_comment_id == Some(
            args.comment_id,
        )),
{
    let f = s.audit_findings@;
    lemma_finding(f, args.comment_id, 0);
    let at = admin::finding_at(f, args.comment_id, 0);
    assert forall|i: int| #[trigger] first_finding(f, args.comment_id, i) implies at == Some(i) by {
        assert(f[i].comment_id == Some(args.comment_id));
        let k = at->Some_0;
        assert(first_finding(f, args.comment_id, k));
        if k < i {
            assert(f[k].comment_id != Some(args.comment_id));
        } else if i < k {
            assert(f[i].comment_id != Some(args.comment_id));
        }
    }
    if r is Ok {
        assert(first_finding(f, args.comment_id, at->Some_0));
    }
}

/// A thesis that is opened again gets a note for it.
pub proof fn how_a_thesis_is_reopened(
    args: AdminReopenThesisArgs,
    r: (ProtocolComment, AdminOutput),
)
    requires
        call_ensures(admin::reopen_thesis, (&args,), r),
    ensures
        r.0 matches ProtocolComment::AdminNote { action, target, note, related_comment_id }
            && action@ == "reopen_thesis"@ && target@ == "thesis #"@ + text::decimal(
            args.issue as nat,
        ) && note@ == args.note@ && related_comment_id is None,
        r.1 == (AdminOutput::ReopenThesis { issue: args.issue }),
{
}

} // verus!
