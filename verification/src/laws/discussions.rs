//! What each comment does to the discussion of an issue or a candidate.
use crate::comments::ProtocolComment;
use crate::config::ProtocolConfig;
use crate::github::{Issue, PullRequest};
use crate::laws::theses::before;
use crate::sort;
use crate::sort::Ranked;
use crate::state;
use crate::text;
use crate::text_set;
use crate::time;
use crate::time::Timestamp;
use crate::validation;
use crate::validation::{
    AuditScope, AuditSeverity, FindingView, IssueContext, IssueProgress, IssueValidation,
    ProtocolEnvelope, PullRequestProgress, PullRequestValidation, ValidAttemptRecord,
};
use vstd::prelude::*;

verus! {

/// The author of the comment leads the project.
pub open spec fn by_lead(c: ProtocolEnvelope, config: ProtocolConfig) -> bool {
    config.lead_github_login matches Some(l) && l@ == c.author@
}

/// The author of the comment maintains the project.
pub open spec fn by_maintainer(c: ProtocolEnvelope, config: ProtocolConfig) -> bool {
    config.maintainer_github_login matches Some(l) && l@ == c.author@
}

/// The thesis had ended before the comment: a candidate was decided, or the issue was closed.
pub open spec fn too_late(x: IssueContext, c: ProtocolEnvelope) -> bool {
    (x.latest_decision matches Some(d) && before(d, c.created_at)) || (x.issue.state@ == "CLOSED"@
        && (x.issue.closed_at matches Some(t) && before(t, c.created_at)))
}

/// Nothing counts differently but what was found.
pub open spec fn same_issue_record(p: IssueProgress, q: IssueProgress) -> bool {
    &&& p.approved == q.approved
    &&& p.maintainer_approved == q.maintainer_approved
    &&& p.maintainer_rejected == q.maintainer_rejected
    &&& p.claim == q.claim
    &&& p.releases == q.releases
    &&& p.attempts == q.attempts
    &&& p.acknowledged == q.acknowledged
}

/// One more thing was found, of this severity and on this comment.
pub open spec fn found(
    before_it: Seq<FindingView>,
    after_it: Seq<FindingView>,
    scope: AuditScope,
    severity: AuditSeverity,
    c: ProtocolEnvelope,
) -> bool {
    &&& after_it.len() == before_it.len() + 1
    &&& after_it.drop_last() == before_it
    &&& after_it.last().scope == scope
    &&& after_it.last().severity == severity
    &&& after_it.last().comment_id == Some(c.id)
    &&& after_it.last().author == Some(c.author@)
    &&& after_it.last().created_at == Some(c.created_at)
    &&& after_it.last().message.len() > 0
}

proof fn lemma_messages()
    ensures
        "approval comment thesis number does not match the issue"@.len() > 0,
        "approval comment from non-lead actor"@.len() > 0,
        "duplicate approval comment"@.len() > 0,
        "claim comment thesis number does not match the issue"@.len() > 0,
        "claim posted before a valid approval"@.len() > 0,
        "claim posted after the thesis was already closed or decided"@.len() > 0,
        "claim posted while another valid claim was still active"@.len() > 0,
        "release comment thesis number does not match the issue"@.len() > 0,
        "release posted by a node that did not hold the active claim"@.len() > 0,
        "release author does not own the active canonical claim"@.len() > 0,
        "attempt comment thesis number does not match the issue"@.len() > 0,
        "attempt posted before a valid approval"@.len() > 0,
        "attempt posted after the thesis was already closed or decided"@.len() > 0,
        "attempt posted without any active canonical claim"@.len() > 0,
        "attempt author does not match the active canonical claim owner"@.len() > 0,
        "attempt branch does not match the thesis branch naming convention"@.len() > 0,
        "duplicate attempt branch recorded more than once"@.len() > 0,
        "admin repair note from non-lead actor"@.len() > 0,
        "manual `/approve` comment is non-canonical; use `polyresearch generate` or an admin command"@.len()
            > 0,
{
    reveal_strlit("approval comment thesis number does not match the issue");
    reveal_strlit("approval comment from non-lead actor");
    reveal_strlit("duplicate approval comment");
    reveal_strlit("claim comment thesis number does not match the issue");
    reveal_strlit("claim posted before a valid approval");
    reveal_strlit("claim posted after the thesis was already closed or decided");
    reveal_strlit("claim posted while another valid claim was still active");
    reveal_strlit("release comment thesis number does not match the issue");
    reveal_strlit("release posted by a node that did not hold the active claim");
    reveal_strlit("release author does not own the active canonical claim");
    reveal_strlit("attempt comment thesis number does not match the issue");
    reveal_strlit("attempt posted before a valid approval");
    reveal_strlit("attempt posted after the thesis was already closed or decided");
    reveal_strlit("attempt posted without any active canonical claim");
    reveal_strlit("attempt author does not match the active canonical claim owner");
    reveal_strlit("attempt branch does not match the thesis branch naming convention");
    reveal_strlit("duplicate attempt branch recorded more than once");
    reveal_strlit("admin repair note from non-lead actor");
    reveal_strlit(
        "manual `/approve` comment is non-canonical; use `polyresearch generate` or an admin command",
    );
}

/// A thesis is approved by the lead's approval for it, and by the maintainer's `/approve` where
/// theses are not approved by themselves; nothing else approves it, and nothing takes it back. A
/// second approval of the lead is odd, one of somebody else or for another thesis does not count.
pub proof fn who_approves_a_thesis(p: IssueProgress, x: IssueContext, c: ProtocolEnvelope)
    ensures
        ({
            let q = p.step(x, c);
            let scope = AuditScope::Issue { number: x.issue.number };
            &&& q.approved <==> p.approved || (by_lead(c, x.config) && (c.protocol matches Some(
                ProtocolComment::Approval { thesis },
            ) && thesis == x.issue.number)) || (by_maintainer(c, x.config)
                && !x.config.auto_approve && (c.protocol matches Some(s) && s is SlashApprove))
            &&& c.protocol matches Some(ProtocolComment::Approval { thesis }) ==> {
                let counts = thesis == x.issue.number && by_lead(c, x.config);
                &&& counts && !p.approved ==> q.findings == p.findings
                &&& counts && p.approved ==> found(
                    p.findings,
                    q.findings,
                    scope,
                    AuditSeverity::Suspicious,
                    c,
                )
                &&& !counts ==> found(p.findings, q.findings, scope, AuditSeverity::Invalid, c)
                &&& p.claim == q.claim && p.releases == q.releases && p.attempts == q.attempts
                &&& p.acknowledged == q.acknowledged
            }
        }),
{
    lemma_messages();
    let q = p.step(x, c);
    assert(q.findings.len() > p.findings.len() ==> q.findings.drop_last() =~= p.findings);
}

/// A claim takes hold exactly where the thesis of the issue is approved, has not ended, and is
/// held by nobody; it is held by the node that the comment names, from the time and by the author
/// of the comment, and it is over once the timeout has passed.
pub proof fn how_a_thesis_is_claimed(p: IssueProgress, x: IssueContext, c: ProtocolEnvelope)
    requires
        c.protocol matches Some(s) && s is Claim,
    ensures
        ({
            let q = p.step(x, c);
            let scope = AuditScope::Issue { number: x.issue.number };
            let thesis = c.protocol->Some_0->Claim_thesis;
            let counts = thesis == x.issue.number && p.approved && !too_late(x, c) && p.claim
                is None;
            &&& q.approved == p.approved && q.releases == p.releases && q.attempts == p.attempts
                && q.acknowledged == p.acknowledged
            &&& counts ==> q.findings == p.findings && (q.claim matches Some(held) && held.node
                == c.protocol->Some_0->Claim_node && held.author_login == c.author
                && held.created_at == c.created_at && (x.config.assignment_timeout
                <= time::LONGEST_SPAN && c.created_at.nanos < 1_000_000_000 ==> (held.expired <==> (
            c.created_at.secs + x.config.assignment_timeout < x.now.secs || (c.created_at.secs
                + x.config.assignment_timeout == x.now.secs && c.created_at.nanos < x.now.nanos)))))
            &&& !counts ==> same_issue_record(p, q) && found(
                p.findings,
                q.findings,
                scope,
                AuditSeverity::Invalid,
                c,
            )
        }),
{
    lemma_messages();
    let q = p.step(x, c);
    assert(q.findings.len() > p.findings.len() ==> q.findings.drop_last() =~= p.findings);
}

/// A release counts exactly where its node holds the thesis of the issue and its author is the one
/// who claimed it, or the lead; then nobody holds the thesis any more, and the release is recorded
/// with its node, its reason and its time.
pub proof fn how_a_thesis_is_released(p: IssueProgress, x: IssueContext, c: ProtocolEnvelope)
    requires
        c.protocol matches Some(s) && s is Release,
    ensures
        ({
            let q = p.step(x, c);
            let scope = AuditScope::Issue { number: x.issue.number };
            let thesis = c.protocol->Some_0->Release_thesis;
            let node = c.protocol->Some_0->Release_node;
            let counts = thesis == x.issue.number && (p.claim matches Some(held) && held.node@
                == node@ && (held.author_login@ == c.author@ || by_lead(c, x.config)));
            &&& q.approved == p.approved && q.attempts == p.attempts && q.acknowledged
                == p.acknowledged
            &&& counts ==> q.claim is None && q.findings == p.findings && q.releases.len()
                == p.releases.len() + 1 && q.releases.drop_last() == p.releases
                && q.releases.last().node == node && q.releases.last().reason
                == c.protocol->Some_0->Release_reason && q.releases.last().created_at
                == c.created_at
            &&& !counts ==> same_issue_record(p, q) && found(
                p.findings,
                q.findings,
                scope,
                AuditSeverity::Invalid,
                c,
            )
        }),
{
    lemma_messages();
    let q = p.step(x, c);
    assert(q.findings.len() > p.findings.len() ==> q.findings.drop_last() =~= p.findings);
    assert(q.releases.len() > p.releases.len() ==> q.releases.drop_last() =~= p.releases);
}

/// An attempt counts exactly where the thesis of the issue is approved, has not ended, and is held
/// through the author of the comment, its branch is one of the thesis, and no attempt on that
/// branch was recorded before. It is recorded as it was posted, for the node that holds the thesis.
pub proof fn how_an_attempt_is_recorded(p: IssueProgress, x: IssueContext, c: ProtocolEnvelope)
    requires
        c.protocol matches Some(s) && s is Attempt,
    ensures
        ({
            let q = p.step(x, c);
            let scope = AuditScope::Issue { number: x.issue.number };
            let s = c.protocol->Some_0;
            let due = s->Attempt_thesis == x.issue.number && p.approved && !too_late(x, c) && (
            p.claim matches Some(held) && held.author_login@ == c.author@) && text::begins(
                s->branch@,
                "thesis/"@ + text::decimal(x.issue.number as nat) + "-"@,
            );
            let again = exists|i: int|
                0 <= i < p.attempts.len() && (#[trigger] p.attempts[i]).branch@ == s->branch@;
            &&& q.approved == p.approved && q.claim == p.claim && q.releases == p.releases
                && q.acknowledged == p.acknowledged
            &&& due && !again ==> q.findings == p.findings && q.attempts.len() == p.attempts.len()
                + 1 && q.attempts.drop_last() == p.attempts && ({
                let a = q.attempts.last();
                &&& a.thesis == x.issue.number
                &&& a.node == p.claim->Some_0.node
                &&& a.branch == s->branch
                &&& a.metric == s->Attempt_metric
                &&& a.baseline_metric == s->Attempt_baseline_metric
                &&& a.observation == s->Attempt_observation
                &&& a.summary == s->summary
                &&& a.author == c.author
                &&& a.created_at == c.created_at
                &&& a.comment_id == c.id
            })
            &&& due && again ==> same_issue_record(p, q) && found(
                p.findings,
                q.findings,
                scope,
                AuditSeverity::Suspicious,
                c,
            )
            &&& !due ==> same_issue_record(p, q) && found(
                p.findings,
                q.findings,
                scope,
                AuditSeverity::Invalid,
                c,
            )
        }),
{
    lemma_messages();
    let q = p.step(x, c);
    assert(q.findings.len() > p.findings.len() ==> q.findings.drop_last() =~= p.findings);
    assert(q.attempts.len() > p.attempts.len() ==> q.attempts.drop_last() =~= p.attempts);
}

/// What is said on an issue besides claims, releases, attempts and approvals changes nothing that
/// counts: a note of the lead may acknowledge a comment, anybody else's note does not count, and
/// the rest is not heard at all.
pub proof fn what_is_not_heard_on_an_issue(p: IssueProgress, x: IssueContext, c: ProtocolEnvelope)
    requires
        c.protocol matches Some(s) ==> !(s is Claim) && !(s is Release) && !(s is Attempt) && !(
        s is Approval) && !(s is SlashApprove) && !(s is SlashReject),
    ensures
        ({
            let q = p.step(x, c);
            let scope = AuditScope::Issue { number: x.issue.number };
            &&& q.approved == p.approved && q.claim == p.claim && q.releases == p.releases
                && q.attempts == p.attempts && q.maintainer_approved == p.maintainer_approved
                && q.maintainer_rejected == p.maintainer_rejected
            &&& match c.protocol {
                Some(ProtocolComment::AdminNote { action, related_comment_id, .. }) => if by_lead(
                    c,
                    x.config,
                ) {
                    q.findings == p.findings && q.acknowledged == (if action@
                        == "acknowledge_invalid"@ && related_comment_id is Some {
                        p.acknowledged.push(related_comment_id->Some_0)
                    } else {
                        p.acknowledged
                    })
                } else {
                    q.acknowledged == p.acknowledged && found(
                        p.findings,
                        q.findings,
                        scope,
                        AuditSeverity::Invalid,
                        c,
                    )
                },
                _ => q == p,
            }
        }),
{
    lemma_messages();
    let q = p.step(x, c);
    assert(q.findings.len() > p.findings.len() ==> q.findings.drop_last() =~= p.findings);
}

/// A word of the maintainer stands on an issue as the last one, and no other comment changes it.
/// `/approve` is odd unless it is the maintainer's and theses are not approved by themselves.
pub proof fn what_a_word_does_on_an_issue(p: IssueProgress, x: IssueContext, c: ProtocolEnvelope)
    ensures
        ({
            let q = p.step(x, c);
            let scope = AuditScope::Issue { number: x.issue.number };
            let approves = c.protocol matches Some(s) && s is SlashApprove;
            let rejects = c.protocol matches Some(s) && s is SlashReject;
            &&& by_maintainer(c, x.config) && approves ==> q.maintainer_approved
                && !q.maintainer_rejected
            &&& by_maintainer(c, x.config) && rejects ==> !q.maintainer_approved
                && q.maintainer_rejected
            &&& !(by_maintainer(c, x.config) && (approves || rejects)) ==> q.maintainer_approved
                == p.maintainer_approved && q.maintainer_rejected == p.maintainer_rejected
            &&& approves || rejects ==> q.claim == p.claim && q.releases == p.releases && q.attempts
                == p.attempts && q.acknowledged == p.acknowledged
            &&& rejects ==> q.findings == p.findings
            &&& approves && by_maintainer(c, x.config) && !x.config.auto_approve ==> q.findings
                == p.findings
            &&& approves && !(by_maintainer(c, x.config) && !x.config.auto_approve) ==> found(
                p.findings,
                q.findings,
                scope,
                AuditSeverity::Suspicious,
                c,
            )
        }),
{
    lemma_messages();
    let q = p.step(x, c);
    assert(q.findings.len() > p.findings.len() ==> q.findings.drop_last() =~= p.findings);
}

proof fn lemma_invalidated(attempts: Seq<ValidAttemptRecord>, acknowledged: Seq<u64>)
    ensures
        forall|b: Seq<char>|
            #[trigger] IssueProgress::invalidated(attempts, acknowledged).contains(b)
                <==> exists|i: int|
                0 <= i < attempts.len() && (#[trigger] attempts[i]).branch@ == b
                    && acknowledged.contains(attempts[i].comment_id),
    decreases attempts.len(),
{
    let all = IssueProgress::invalidated(attempts, acknowledged);
    if attempts.len() > 0 {
        let rest = attempts.drop_last();
        let n = attempts.len() - 1;
        lemma_invalidated(rest, acknowledged);
        let q = IssueProgress::invalidated(rest, acknowledged);
        assert forall|b: Seq<char>| #[trigger] all.contains(b) <==> exists|i: int|
            0 <= i < attempts.len() && (#[trigger] attempts[i]).branch@ == b
                && acknowledged.contains(attempts[i].comment_id) by {
            if all.contains(b) {
                let k = choose|k: int| 0 <= k < all.len() && all[k] == b;
                if k < q.len() {
                    assert(q[k] == b);
                    assert(q.contains(b));
                    let i = choose|i: int|
                        0 <= i < rest.len() && (#[trigger] rest[i]).branch@ == b
                            && acknowledged.contains(rest[i].comment_id);
                    assert(attempts[i].branch@ == b);
                } else {
                    assert(attempts[n].branch@ == b);
                }
            }
            if exists|i: int|
                0 <= i < attempts.len() && (#[trigger] attempts[i]).branch@ == b
                    && acknowledged.contains(attempts[i].comment_id) {
                let i = choose|i: int|
                    0 <= i < attempts.len() && (#[trigger] attempts[i]).branch@ == b
                        && acknowledged.contains(attempts[i].comment_id);
                if i < n {
                    assert(rest[i].branch@ == b);
                    assert(q.contains(b));
                    let k = choose|k: int| 0 <= k < q.len() && q[k] == b;
                    assert(all[k] == b);
                } else {
                    assert(all[q.len() as int] == b);
                }
            }
        }
    }
}

/// Comments in the order in which they were posted; of those of one time the lower number first.
pub open spec fn as_posted(s: Seq<ProtocolEnvelope>) -> bool {
    forall|i: int, j: int|
        0 <= i < j < s.len() ==> !before(
            (#[trigger] s[j]).created_at,
            (#[trigger] s[i]).created_at,
        ) && (s[i].created_at == s[j].created_at ==> s[i].id <= s[j].id)
}

proof fn lemma_posted(comments: Seq<ProtocolEnvelope>)
    ensures
        as_posted(sort::sorted(comments)),
        sort::sorted(comments).to_multiset() == comments.to_multiset(),
{
    sort::sorted_is_ordered_and_complete(comments);
    let s = sort::sorted(comments);
    assert forall|i: int, j: int| 0 <= i < j < s.len() implies !before(
        (#[trigger] s[j]).created_at,
        (#[trigger] s[i]).created_at,
    ) && (s[i].created_at == s[j].created_at ==> s[i].id <= s[j].id) by {
        assert(!s[i].after(s[j]));
    }
}

proof fn lemma_trail(x: IssueContext, s: Seq<ProtocolEnvelope>) -> (p: Seq<IssueProgress>)
    ensures
        p.len() == s.len() + 1,
        p[0] == IssueProgress::after(x, Seq::empty()),
        forall|i: int| 0 <= i < s.len() ==> #[trigger] p[i + 1] == p[i].step(x, s[i]),
        p.last() == IssueProgress::after(x, s),
    decreases s.len(),
{
    if s.len() == 0 {
        assert(s =~= Seq::empty());
        seq![IssueProgress::after(x, s)]
    } else {
        let q = lemma_trail(x, s.drop_last());
        let p = q.push(IssueProgress::after(x, s));
        assert forall|i: int| 0 <= i < s.len() implies #[trigger] p[i + 1] == p[i].step(x, s[i]) by {
            if i < s.len() - 1 {
                assert(q[i + 1] == q[i].step(x, s.drop_last()[i]));
            }
        }
        p
    }
}

/// Nothing is approved, held, recorded or found.
pub open spec fn starts_empty(p: IssueProgress) -> bool {
    &&& !p.approved && !p.maintainer_approved && !p.maintainer_rejected
    &&& p.claim is None
    &&& p.releases.len() == 0 && p.attempts.len() == 0
    &&& p.findings.len() == 0 && p.acknowledged.len() == 0
}

/// The result tells what the discussion has come to.
pub open spec fn ends_as(end: IssueProgress, r: IssueValidation) -> bool {
    &&& r.approved == end.approved
    &&& r.maintainer_approved == end.maintainer_approved
    &&& r.maintainer_rejected == end.maintainer_rejected
    &&& r.releases@ == end.releases
    &&& r.attempts@ == end.attempts
    &&& (end.claim matches Some(c) && !c.expired) ==> r.active_claims@ == seq![end.claim->Some_0]
    &&& !(end.claim matches Some(c) && !c.expired) ==> r.active_claims@.len() == 0
    &&& forall|b: Seq<char>|
        #[trigger] text::texts(r.invalidated_attempt_branches@).contains(b) <==> exists|i: int|
            0 <= i < end.attempts.len() && (#[trigger] end.attempts[i]).branch@ == b
                && end.acknowledged.contains(end.attempts[i].comment_id)
    &&& validation::finding_views(r.findings@) == end.findings.filter(
        |f: FindingView| !(f.comment_id matches Some(id) && end.acknowledged.contains(id)),
    )
}

/// The comments on an issue count one by one, in the order in which they were posted, from a start
/// at which nothing is approved, held or recorded. A claim is active exactly where it has not
/// expired; the findings that remain are those on comments that were not acknowledged; and the
/// invalidated branches are those of recorded attempts that were.
#[verifier::rlimit(40)]
pub proof fn comments_on_an_issue_count_as_posted(
    issue: Issue,
    comments: Vec<ProtocolEnvelope>,
    config: ProtocolConfig,
    decided: Option<Timestamp>,
    now: Timestamp,
    r: IssueValidation,
) -> (out: (Seq<ProtocolEnvelope>, Seq<IssueProgress>))
    requires
        call_ensures(validation::validate_issue, (&issue, comments, &config, decided, now), r),
    ensures
        as_posted(out.0),
        out.0.to_multiset() == comments@.to_multiset(),
        out.1.len() == out.0.len() + 1,
        starts_empty(out.1[0]),
        forall|i: int|
            0 <= i < out.0.len() ==> #[trigger] out.1[i + 1] == out.1[i].step(
                (IssueContext { issue, config, latest_decision: decided, now }),
                out.0[i],
            ),
        ends_as(out.1.last(), r),
{
    let x = IssueContext { issue, config, latest_decision: decided, now };
    let s = sort::sorted(comments@);
    lemma_posted(comments@);
    let p = lemma_trail(x, s);
    let end = p.last();
    lemma_invalidated(end.attempts, end.acknowledged);
    let inv = IssueProgress::invalidated(end.attempts, end.acknowledged);
    text_set::set_is_ordered_and_complete(inv);
    assert(text::texts(r.invalidated_attempt_branches@) == text_set::set_of(inv));
    assert forall|b: Seq<char>|
        #[trigger] text::texts(r.invalidated_attempt_branches@).contains(b) <==> exists|i: int|
            0 <= i < end.attempts.len() && (#[trigger] end.attempts[i]).branch@ == b
                && end.acknowledged.contains(end.attempts[i].comment_id) by {
        assert(text_set::set_of(inv).contains(b) <==> inv.contains(b));
    }
    lemma_kept(end.findings, end.acknowledged);
    (s, p)
}

proof fn lemma_kept(findings: Seq<FindingView>, acknowledged: Seq<u64>)
    ensures
        validation::unacknowledged(findings, acknowledged) == findings.filter(
            |f: FindingView| !(f.comment_id matches Some(id) && acknowledged.contains(id)),
        ),
    decreases findings.len(),
{
    reveal(Seq::filter);
    if findings.len() > 0 {
        lemma_kept(findings.drop_last(), acknowledged);
    }
}

/// Nothing counts differently but what was found.
pub open spec fn same_candidate_record(p: PullRequestProgress, q: PullRequestProgress) -> bool {
    &&& p.policy_pass == q.policy_pass
    &&& p.maintainer_approved == q.maintainer_approved
    &&& p.maintainer_rejected == q.maintainer_rejected
    &&& p.review_claims == q.review_claims
    &&& p.reviews == q.reviews
    &&& p.decision == q.decision
    &&& p.acknowledged == q.acknowledged
}

/// The author of the comment opened the candidate.
pub open spec fn by_opener(c: ProtocolEnvelope, pr: PullRequest) -> bool {
    pr.author matches Some(a) && a.login@ == c.author@
}

/// The node has claimed the review.
pub open spec fn claimed_by_node(p: PullRequestProgress, node: Seq<char>) -> bool {
    exists|i: int| 0 <= i < p.review_claims.len() && (#[trigger] p.review_claims[i]).node@ == node
}

/// The node has reviewed the candidate.
pub open spec fn reviewed_by_node(p: PullRequestProgress, node: Seq<char>) -> bool {
    exists|i: int| 0 <= i < p.reviews.len() && (#[trigger] p.reviews[i]).node@ == node
}

proof fn lemma_candidate_messages()
    ensures
        "policy-pass comment from non-lead actor"@.len() > 0,
        "policy-pass thesis number does not match PR branch"@.len() > 0,
        "policy-pass comment posted after a decision already exists"@.len() > 0,
        "duplicate policy-pass comment"@.len() > 0,
        "review-claim comment posted after the PR was already decided"@.len() > 0,
        "PR author cannot review-claim their own PR"@.len() > 0,
        "duplicate review-claim for the same node"@.len() > 0,
        "review comment posted after the PR was already decided"@.len() > 0,
        "PR author cannot review their own PR"@.len() > 0,
        "review comment without a preceding valid review-claim"@.len() > 0,
        "review comment author does not match the valid review-claim owner"@.len() > 0,
        "duplicate review from the same node"@.len() > 0,
        "decision comment from non-lead actor"@.len() > 0,
        "decision comment posted before a valid policy-pass"@.len() > 0,
        "duplicate decision comment"@.len() > 0,
        "admin repair note from non-lead actor"@.len() > 0,
{
    reveal_strlit("policy-pass comment from non-lead actor");
    reveal_strlit("policy-pass thesis number does not match PR branch");
    reveal_strlit("policy-pass comment posted after a decision already exists");
    reveal_strlit("duplicate policy-pass comment");
    reveal_strlit("review-claim comment posted after the PR was already decided");
    reveal_strlit("PR author cannot review-claim their own PR");
    reveal_strlit("duplicate review-claim for the same node");
    reveal_strlit("review comment posted after the PR was already decided");
    reveal_strlit("PR author cannot review their own PR");
    reveal_strlit("review comment without a preceding valid review-claim");
    reveal_strlit("review comment author does not match the valid review-claim owner");
    reveal_strlit("duplicate review from the same node");
    reveal_strlit("decision comment from non-lead actor");
    reveal_strlit("decision comment posted before a valid policy-pass");
    reveal_strlit("duplicate decision comment");
    reveal_strlit("admin repair note from non-lead actor");
}

/// A candidate gets its policy pass from the lead alone, for the thesis of its branch, and while
/// it is undecided; nothing takes the pass back. A second pass is odd, any other one does not count.
pub proof fn how_a_candidate_passes(
    p: PullRequestProgress,
    pr: PullRequest,
    c: ProtocolEnvelope,
    config: ProtocolConfig,
)
    ensures
        ({
            let q = p.step(pr, c, config);
            let scope = AuditScope::PullRequest { number: pr.number };
            let passes = c.protocol matches Some(ProtocolComment::PolicyPass { thesis, .. })
                && by_lead(c, config) && state::thesis_of_branch(pr.head_ref_name@) == Some(thesis)
                && p.decision is None;
            &&& q.policy_pass <==> p.policy_pass || passes
            &&& (c.protocol matches Some(s) && s is PolicyPass) ==> {
                &&& passes && !p.policy_pass ==> q.findings == p.findings
                &&& passes && p.policy_pass ==> found(
                    p.findings,
                    q.findings,
                    scope,
                    AuditSeverity::Suspicious,
                    c,
                )
                &&& !passes ==> found(p.findings, q.findings, scope, AuditSeverity::Invalid, c)
                &&& same_candidate_record(
                    (PullRequestProgress { policy_pass: q.policy_pass, ..p }),
                    q,
                )
            }
        }),
{
    lemma_candidate_messages();
    let q = p.step(pr, c, config);
    assert(q.findings.len() > p.findings.len() ==> q.findings.drop_last() =~= p.findings);
}

/// A review is claimed while the candidate is undecided, by somebody else than who opened it, and
/// once for a node; it is recorded for the node, the author and the time of the comment.
pub proof fn how_a_review_is_claimed(
    p: PullRequestProgress,
    pr: PullRequest,
    c: ProtocolEnvelope,
    config: ProtocolConfig,
)
    requires
        c.protocol matches Some(s) && s is ReviewClaim,
    ensures
        ({
            let q = p.step(pr, c, config);
            let scope = AuditScope::PullRequest { number: pr.number };
            let node = c.protocol->Some_0->ReviewClaim_node;
            let due = p.decision is None && !by_opener(c, pr);
            let again = claimed_by_node(p, node@);
            &&& due && !again ==> q.findings == p.findings && q.reviews == p.reviews && q.decision
                == p.decision && q.policy_pass == p.policy_pass && q.review_claims.len()
                == p.review_claims.len() + 1 && q.review_claims.drop_last() == p.review_claims
                && q.review_claims.last().node == node && q.review_claims.last().author_login
                == c.author && q.review_claims.last().created_at == c.created_at
            &&& due && again ==> same_candidate_record(p, q) && found(
                p.findings,
                q.findings,
                scope,
                AuditSeverity::Suspicious,
                c,
            )
            &&& !due ==> same_candidate_record(p, q) && found(
                p.findings,
                q.findings,
                scope,
                AuditSeverity::Invalid,
                c,
            )
        }),
{
    lemma_candidate_messages();
    let q = p.step(pr, c, config);
    assert(q.findings.len() > p.findings.len() ==> q.findings.drop_last() =~= p.findings);
    assert(q.review_claims.len() > p.review_claims.len() ==> q.review_claims.drop_last()
        =~= p.review_claims);
}

/// A review counts while the candidate is undecided, from somebody else than who opened it, for a
/// node whose review was claimed by the author of the comment, and once for a node. It is recorded
/// as it was posted.
pub proof fn how_a_review_is_recorded(
    p: PullRequestProgress,
    pr: PullRequest,
    c: ProtocolEnvelope,
    config: ProtocolConfig,
)
    requires
        c.protocol matches Some(s) && s is Review,
    ensures
        ({
            let q = p.step(pr, c, config);
            let scope = AuditScope::PullRequest { number: pr.number };
            let s = c.protocol->Some_0;
            let due = p.decision is None && !by_opener(c, pr) && exists|i: int|
                0 <= i < p.review_claims.len() && (#[trigger] p.review_claims[i]).node@
                    == s->Review_node@ && p.review_claims[i].author_login@ == c.author@;
            let again = reviewed_by_node(p, s->Review_node@);
            &&& due && !again ==> q.findings == p.findings && q.review_claims == p.review_claims
                && q.decision == p.decision && q.policy_pass == p.policy_pass && q.reviews.len()
                == p.reviews.len() + 1 && q.reviews.drop_last() == p.reviews && ({
                let v = q.reviews.last();
                &&& v.node == s->Review_node
                &&& v.metric == s->Review_metric
                &&& v.baseline_metric == s->Review_baseline_metric
                &&& v.observation == s->Review_observation
                &&& v.candidate_sha == s->Review_candidate_sha
                &&& v.base_sha == s->base_sha
                &&& v.env_sha == s->env_sha
                &&& v.timestamp == s->timestamp
                &&& v.created_at == c.created_at
            })
            &&& due && again ==> same_candidate_record(p, q) && found(
                p.findings,
                q.findings,
                scope,
                AuditSeverity::Suspicious,
                c,
            )
            &&& !due ==> same_candidate_record(p, q) && found(
                p.findings,
                q.findings,
                scope,
                AuditSeverity::Invalid,
                c,
            )
        }),
{
    lemma_candidate_messages();
    let q = p.step(pr, c, config);
    assert(q.findings.len() > p.findings.len() ==> q.findings.drop_last() =~= p.findings);
    assert(q.reviews.len() > p.reviews.len() ==> q.reviews.drop_last() =~= p.reviews);
}

/// A decision counts only from the lead and for a candidate that has passed the policy check; the
/// first one stands, as it was posted.
pub proof fn how_a_candidate_is_decided(
    p: PullRequestProgress,
    pr: PullRequest,
    c: ProtocolEnvelope,
    config: ProtocolConfig,
)
    ensures
        ({
            let q = p.step(pr, c, config);
            let scope = AuditScope::PullRequest { number: pr.number };
            let decides = c.protocol matches Some(s) && s is Decision;
            let due = by_lead(c, config) && p.policy_pass;
            &&& p.decision is Some ==> q.decision == p.decision
            &&& p.decision is None ==> (q.decision is Some <==> decides && due)
            &&& p.decision is None && q.decision is Some ==> ({
                let d = q.decision->Some_0;
                let s = c.protocol->Some_0;
                &&& d.outcome == s->outcome
                &&& d.candidate_sha == s->Decision_candidate_sha
                &&& d.confirmations == s->confirmations
                &&& d.created_at == c.created_at
                &&& q.findings == p.findings
            })
            &&& decides ==> q.policy_pass == p.policy_pass && q.reviews == p.reviews
                && q.review_claims == p.review_claims && q.maintainer_approved
                == p.maintainer_approved && q.maintainer_rejected == p.maintainer_rejected
            &&& decides && due && p.decision is Some ==> found(
                p.findings,
                q.findings,
                scope,
                AuditSeverity::Suspicious,
                c,
            )
            &&& decides && !due ==> found(p.findings, q.findings, scope, AuditSeverity::Invalid, c)
        }),
{
    lemma_candidate_messages();
    let q = p.step(pr, c, config);
    assert(q.findings.len() > p.findings.len() ==> q.findings.drop_last() =~= p.findings);
}

/// The last word of the maintainer stands on a candidate, and nobody else's word counts. A note of the
/// lead may acknowledge a comment; what else is said on a candidate changes nothing.
pub proof fn what_a_word_does_on_a_candidate(
    p: PullRequestProgress,
    pr: PullRequest,
    c: ProtocolEnvelope,
    config: ProtocolConfig,
)
    ensures
        ({
            let q = p.step(pr, c, config);
            let scope = AuditScope::PullRequest { number: pr.number };
            let approves = c.protocol matches Some(s) && s is SlashApprove;
            let rejects = c.protocol matches Some(s) && s is SlashReject;
            &&& by_maintainer(c, config) && approves ==> q.maintainer_approved
                && !q.maintainer_rejected
            &&& by_maintainer(c, config) && rejects ==> !q.maintainer_approved
                && q.maintainer_rejected
            &&& !(by_maintainer(c, config) && (approves || rejects)) ==> q.maintainer_approved
                == p.maintainer_approved && q.maintainer_rejected == p.maintainer_rejected
            &&& approves || rejects ==> q.policy_pass == p.policy_pass && q.reviews == p.reviews
                && q.review_claims == p.review_claims && q.decision == p.decision && q.findings
                == p.findings && q.acknowledged == p.acknowledged
            &&& match c.protocol {
                Some(ProtocolComment::AdminNote { action, related_comment_id, .. }) => {
                    &&& q.policy_pass == p.policy_pass && q.reviews == p.reviews && q.review_claims
                        == p.review_claims && q.decision == p.decision
                    &&& if by_lead(c, config) {
                        q.findings == p.findings && q.acknowledged == (if action@
                            == "acknowledge_invalid"@ && related_comment_id is Some {
                            p.acknowledged.push(related_comment_id->Some_0)
                        } else {
                            p.acknowledged
                        })
                    } else {
                        q.acknowledged == p.acknowledged && found(
                            p.findings,
                            q.findings,
                            scope,
                            AuditSeverity::Invalid,
                            c,
                        )
                    }
                },
                Some(s) => s is PolicyPass || s is ReviewClaim || s is Review || s is Decision
                    || approves || rejects || q == p,
                None => q == p,
            }
        }),
{
    lemma_candidate_messages();
    let q = p.step(pr, c, config);
    assert(q.findings.len() > p.findings.len() ==> q.findings.drop_last() =~= p.findings);
}

proof fn lemma_candidate_trail(
    pr: PullRequest,
    s: Seq<ProtocolEnvelope>,
    config: ProtocolConfig,
) -> (p: Seq<PullRequestProgress>)
    ensures
        p.len() == s.len() + 1,
        p[0] == PullRequestProgress::after(pr, Seq::empty(), config),
        forall|i: int| 0 <= i < s.len() ==> #[trigger] p[i + 1] == p[i].step(pr, s[i], config),
        p.last() == PullRequestProgress::after(pr, s, config),
    decreases s.len(),
{
    if s.len() == 0 {
        assert(s =~= Seq::empty());
        seq![PullRequestProgress::after(pr, s, config)]
    } else {
        let q = lemma_candidate_trail(pr, s.drop_last(), config);
        let p = q.push(PullRequestProgress::after(pr, s, config));
        assert forall|i: int| 0 <= i < s.len() implies #[trigger] p[i + 1] == p[i].step(
            pr,
            s[i],
            config,
        ) by {
            if i < s.len() - 1 {
                assert(q[i + 1] == q[i].step(pr, s.drop_last()[i], config));
            }
        }
        p
    }
}

/// The comments on a candidate count one by one, in the order in which they were posted, from a
/// start at which nothing has passed, is claimed, reviewed or decided; and the findings that remain
/// are those on comments that were not acknowledged.
pub proof fn comments_on_a_candidate_count_as_posted(
    pr: PullRequest,
    comments: Vec<ProtocolEnvelope>,
    config: ProtocolConfig,
    r: PullRequestValidation,
) -> (out: (Seq<ProtocolEnvelope>, Seq<PullRequestProgress>))
    requires
        call_ensures(validation::validate_pull_request, (&pr, comments, &config), r),
    ensures
        as_posted(out.0),
        out.0.to_multiset() == comments@.to_multiset(),
        out.1.len() == out.0.len() + 1,
        ({
            let first = out.1[0];
            &&& !first.policy_pass && !first.maintainer_approved && !first.maintainer_rejected
            &&& first.review_claims.len() == 0 && first.reviews.len() == 0
            &&& first.decision is None
            &&& first.findings.len() == 0 && first.acknowledged.len() == 0
        }),
        forall|i: int|
            0 <= i < out.0.len() ==> #[trigger] out.1[i + 1] == out.1[i].step(
                pr,
                out.0[i],
                config,
            ),
        ({
            let end = out.1.last();
            &&& r.thesis_number == state::thesis_of_branch(pr.head_ref_name@)
            &&& r.policy_pass == end.policy_pass
            &&& r.maintainer_approved == end.maintainer_approved
            &&& r.maintainer_rejected == end.maintainer_rejected
            &&& r.review_claims@ == end.review_claims
            &&& r.reviews@ == end.reviews
            &&& r.decision == end.decision
            &&& validation::finding_views(r.findings@) == end.findings.filter(
                |f: FindingView|
                    !(f.comment_id matches Some(id) && end.acknowledged.contains(id)),
            )
        }),
{
    let s = sort::sorted(comments@);
    lemma_posted(comments@);
    let p = lemma_candidate_trail(pr, s, config);
    lemma_kept(p.last().findings, p.last().acknowledged);
    (s, p)
}

} // verus!
