//! What holds of every discussion, whatever was posted.
use crate::comments::ProtocolComment;
use crate::config::ProtocolConfig;
use crate::github::PullRequest;
use crate::sort;
use crate::sort::Ranked;
use crate::state;
use crate::text;
use crate::validation;
use crate::validation::{
    AuditScope, FindingView, IssueContext, IssueProgress, IssueValidation, ProtocolEnvelope,
    PullRequestProgress, PullRequestValidation,
};
use vstd::prelude::*;
use vstd::seq_lib::*;

verus! {

/// No two comments were posted at one time under one number.
pub open spec fn numbered(comments: Seq<ProtocolEnvelope>) -> bool {
    forall|i: int, j: int|
        0 <= i < j < comments.len() ==> (#[trigger] comments[i]).id != (#[trigger] comments[j]).id
            || comments[i].created_at != comments[j].created_at
}

/// The order in which comments arrive does not matter: put in order they are the same, so that
/// what counts is the same.
pub proof fn arrival_does_not_matter(s: Seq<ProtocolEnvelope>, t: Seq<ProtocolEnvelope>)
    requires
        numbered(s),
        s.to_multiset() == t.to_multiset(),
    ensures
        sort::sorted(s) == sort::sorted(t),
{
    broadcast use group_to_multiset_ensures;

    sort::sorted_is_ordered_and_complete(s);
    sort::sorted_is_ordered_and_complete(t);
    let r = sort::sorted(s);
    assert(s.no_duplicates()) by {
        assert forall|i: int, j: int| 0 <= i < j < s.len() implies s[i] != s[j] by {
            assert(s[i].id != s[j].id || s[i].created_at != s[j].created_at);
        }
    }
    s.lemma_multiset_has_no_duplicates();
    r.lemma_multiset_has_no_duplicates_conv();
    assert(sort::apart(r)) by {
        assert forall|i: int, j: int| 0 <= i < j < r.len() implies (#[trigger] r[i]).after(
            #[trigger] r[j],
        ) || r[j].after(r[i]) by {
            assert(r[i] != r[j]);
            assert(r.contains(r[i]) && r.contains(r[j]));
            assert(r.to_multiset().count(r[i]) > 0 && r.to_multiset().count(r[j]) > 0);
            assert(s.contains(r[i]) && s.contains(r[j]));
            let a = choose|a: int| 0 <= a < s.len() && s[a] == r[i];
            let b = choose|b: int| 0 <= b < s.len() && s[b] == r[j];
            assert(a != b);
            if a < b {
                assert(s[a].id != s[b].id || s[a].created_at != s[b].created_at);
            } else {
                assert(s[b].id != s[a].id || s[b].created_at != s[a].created_at);
            }
        }
    }
    sort::order_is_unique(r, sort::sorted(t));
}

/// A branch that starts with the thesis of an issue belongs to that thesis.
pub proof fn lemma_branch_of_thesis(branch: Seq<char>, number: u64)
    requires
        text::begins(branch, "thesis/"@ + text::decimal(number as nat) + "-"@),
    ensures
        state::thesis_of_branch(branch) == Some(number),
{
    reveal_strlit("thesis/");
    reveal_strlit("-");
    let d = text::decimal(number as nat);
    let start = "thesis/"@ + d + "-"@;
    text::lemma_decimal(number as nat);
    text::lemma_number_read_back(number as nat, u64::MAX as nat);
    let n = d.len() as int;
    assert(branch.take(start.len() as int) == start);
    assert forall|i: int| 0 <= i < start.len() implies branch[i] == start[i] by {
        assert(branch.take(start.len() as int)[i] == branch[i]);
    }
    assert(branch.take(7) =~= "thesis/"@);
    let suffix = branch.skip(7);
    assert(suffix.subrange(n, n + 1) =~= "-"@);
    assert forall|j: int| 0 <= j < n implies !text::occurs_at(suffix, "-"@, j) by {
        assert(suffix[j] == d[j]);
        assert(suffix.subrange(j, j + 1)[0] == d[j]);
        assert(text::is_digit(d[j]));
    }
    text::lemma_found_at(suffix, "-"@, 0, n);
    assert(suffix.take(n) =~= d);
}

impl IssueProgress {
    /// What holds of the discussion of an issue at every time: nobody has both approved and
    /// rejected it, nothing was claimed, released or attempted without an approval, and each
    /// attempt belongs to the thesis and has a branch of its own.
    pub open spec fn sound(self, x: IssueContext) -> bool {
        &&& !(self.maintainer_approved && self.maintainer_rejected)
        &&& self.claim is Some ==> self.approved
        &&& self.releases.len() > 0 ==> self.approved
        &&& self.attempts.len() > 0 ==> self.approved
        &&& forall|i: int|
            0 <= i < self.attempts.len() ==> (#[trigger] self.attempts[i]).thesis == x.issue.number
                && state::thesis_of_branch(self.attempts[i].branch@) == Some(x.issue.number)
        &&& forall|i: int, j: int|
            0 <= i < j < self.attempts.len() ==> (#[trigger] self.attempts[i]).branch@ != (
            #[trigger] self.attempts[j]).branch@
        &&& forall|i: int|
            0 <= i < self.findings.len() ==> (#[trigger] self.findings[i]).scope
                == AuditScope::Issue { number: x.issue.number } && self.findings[i].comment_id is Some
    }
}

/// A comment keeps the discussion of an issue sound.
proof fn lemma_issue_step(p: IssueProgress, x: IssueContext, c: ProtocolEnvelope)
    requires
        p.sound(x),
    ensures
        p.step(x, c).sound(x),
{
    let q = p.step(x, c);
    match c.protocol {
        Some(ProtocolComment::Attempt { branch, .. }) => {
            if q.attempts != p.attempts {
                lemma_branch_of_thesis(branch@, x.issue.number);
                let n = p.attempts.len() as int;
                assert(q.attempts.len() == n + 1);
                assert(q.attempts[n].branch == branch);
                assert forall|i: int, j: int| 0 <= i < j < q.attempts.len() implies (
                #[trigger] q.attempts[i]).branch@ != (#[trigger] q.attempts[j]).branch@ by {
                    if j == n {
                        assert(q.attempts[i] == p.attempts[i]);
                    }
                }
            }
        },
        _ => {},
    }
}

/// Every discussion of an issue is sound.
pub proof fn issue_discussion_is_sound(x: IssueContext, comments: Seq<ProtocolEnvelope>)
    ensures
        IssueProgress::after(x, comments).sound(x),
    decreases comments.len(),
{
    if comments.len() > 0 {
        issue_discussion_is_sound(x, comments.drop_last());
        lemma_issue_step(
            IssueProgress::after(x, comments.drop_last()),
            x,
            comments.last(),
        );
    }
}

/// Once a thesis is approved it stays so, and what was recorded stays recorded.
pub proof fn issue_record_only_grows(p: IssueProgress, x: IssueContext, c: ProtocolEnvelope)
    ensures
        p.approved ==> p.step(x, c).approved,
        p.attempts.is_prefix_of(p.step(x, c).attempts),
        p.releases.is_prefix_of(p.step(x, c).releases),
        p.findings.is_prefix_of(p.step(x, c).findings),
        p.acknowledged.is_prefix_of(p.step(x, c).acknowledged),
{
}

/// While a claim is held no other claim takes its place: it only ends by a release from the node
/// that holds it, posted by its owner or by the lead.
pub proof fn claim_is_exclusive(p: IssueProgress, x: IssueContext, c: ProtocolEnvelope)
    requires
        p.claim is Some,
    ensures
        match c.protocol {
            Some(ProtocolComment::Release { thesis, node, .. }) => if thesis == x.issue.number && node@
                == p.claim->Some_0.node@ && (c.author@ == p.claim->Some_0.author_login@
                || validation::is_lead(c.author@, x.config)) {
                p.step(x, c).claim is None
            } else {
                p.step(x, c).claim == p.claim
            },
            _ => p.step(x, c).claim == p.claim,
        },
{
}

/// After a decision or the closing of the issue nothing new is claimed or attempted.
pub proof fn nothing_counts_after_the_end(p: IssueProgress, x: IssueContext, c: ProtocolEnvelope)
    requires
        x.terminal_at(c.created_at),
    ensures
        p.step(x, c).attempts == p.attempts,
        p.claim is None ==> p.step(x, c).claim is None,
{
}

/// Without a word of the lead or, where theses are not approved by themselves, of the maintainer,
/// nothing is approved, and so nothing is claimed, released or attempted.
pub proof fn nothing_without_approval(x: IssueContext, comments: Seq<ProtocolEnvelope>)
    requires
        forall|i: int|
            0 <= i < comments.len() ==> !validation::is_lead(
                (#[trigger] comments[i]).author@,
                x.config,
            ) && (x.config.auto_approve || !validation::is_maintainer(
                comments[i].author@,
                x.config,
            )),
    ensures
        ({
            let p = IssueProgress::after(x, comments);
            &&& !p.approved
            &&& p.claim is None
            &&& p.releases.len() == 0
            &&& p.attempts.len() == 0
        }),
    decreases comments.len(),
{
    if comments.len() > 0 {
        let rest = comments.drop_last();
        assert forall|i: int| 0 <= i < rest.len() implies !validation::is_lead(
            (#[trigger] rest[i]).author@,
            x.config,
        ) && (x.config.auto_approve || !validation::is_maintainer(rest[i].author@, x.config)) by {
            assert(rest[i] == comments[i]);
        }
        nothing_without_approval(x, rest);
        assert(comments[comments.len() - 1] == comments.last());
    }
}

/// What remains of the findings is what nobody has acknowledged, all of it and nothing else.
pub proof fn acknowledged_findings_are_dropped(findings: Seq<FindingView>, acknowledged: Seq<u64>)
    ensures
        forall|f: FindingView|
            #[trigger] validation::unacknowledged(findings, acknowledged).contains(f)
                <==> findings.contains(f) && (f.comment_id matches Some(id)
                ==> !acknowledged.contains(id)),
    decreases findings.len(),
{
    let r = validation::unacknowledged(findings, acknowledged);
    if findings.len() > 0 {
        let rest = findings.drop_last();
        let last = findings.last();
        acknowledged_findings_are_dropped(rest, acknowledged);
        let q = validation::unacknowledged(rest, acknowledged);
        assert forall|f: FindingView| #[trigger] r.contains(f) <==> findings.contains(f) && (
        f.comment_id matches Some(id) ==> !acknowledged.contains(id)) by {
            assert(findings[findings.len() - 1] == last);
            if findings.contains(f) {
                let k = choose|k: int| 0 <= k < findings.len() && findings[k] == f;
                if k < rest.len() {
                    assert(rest[k] == f);
                    assert(rest.contains(f));
                }
            }
            if rest.contains(f) {
                let k = choose|k: int| 0 <= k < rest.len() && rest[k] == f;
                assert(findings[k] == f);
            }
            if q.contains(f) {
                let k = choose|k: int| 0 <= k < q.len() && q[k] == f;
                assert(r[k] == f);
            }
            if r.contains(f) {
                let k = choose|k: int| 0 <= k < r.len() && r[k] == f;
                if k < q.len() {
                    assert(q[k] == f);
                    assert(q.contains(f));
                }
            }
            if r.len() > q.len() {
                assert(r[q.len() as int] == last);
            }
        }
    }
}

impl PullRequestProgress {
    /// What holds of the discussion of a pull request at every time: a decision comes after a
    /// policy pass, nobody reviews a candidate of their own, no node claims or reviews twice, and
    /// each review was claimed.
    pub open spec fn sound(self, pr: PullRequest) -> bool {
        &&& !(self.maintainer_approved && self.maintainer_rejected)
        &&& self.decision is Some ==> self.policy_pass
        &&& forall|i: int|
            0 <= i < self.review_claims.len() ==> !validation::opened_by(
                pr,
                (#[trigger] self.review_claims[i]).author_login@,
            )
        &&& forall|i: int, j: int|
            0 <= i < j < self.review_claims.len() ==> (#[trigger] self.review_claims[i]).node@ != (
            #[trigger] self.review_claims[j]).node@
        &&& forall|i: int, j: int|
            0 <= i < j < self.reviews.len() ==> (#[trigger] self.reviews[i]).node@ != (
            #[trigger] self.reviews[j]).node@
        &&& forall|i: int|
            0 <= i < self.reviews.len() ==> validation::review_claimed(
                self.review_claims,
                (#[trigger] self.reviews[i]).node@,
            )
        &&& forall|i: int|
            0 <= i < self.findings.len() ==> (#[trigger] self.findings[i]).scope
                == AuditScope::PullRequest { number: pr.number } && self.findings[i].comment_id is Some
    }
}

proof fn lemma_pull_request_step(
    p: PullRequestProgress,
    pr: PullRequest,
    c: ProtocolEnvelope,
    config: ProtocolConfig,
)
    requires
        p.sound(pr),
    ensures
        p.step(pr, c, config).sound(pr),
{
    let q = p.step(pr, c, config);
    assert forall|i: int| 0 <= i < q.reviews.len() implies validation::review_claimed(
        q.review_claims,
        (#[trigger] q.reviews[i]).node@,
    ) by {
        let node = q.reviews[i].node@;
        if i < p.reviews.len() {
            assert(q.reviews[i] == p.reviews[i]);
        }
        assert(validation::review_claimed(p.review_claims, node));
        let k = choose|k: int|
            0 <= k < p.review_claims.len() && (#[trigger] p.review_claims[k]).node@ == node;
        assert(q.review_claims[k] == p.review_claims[k]);
    }
    match c.protocol {
        Some(ProtocolComment::ReviewClaim { node, .. }) => {
            let n = p.review_claims.len() as int;
            assert forall|i: int, j: int| 0 <= i < j < q.review_claims.len() implies (
            #[trigger] q.review_claims[i]).node@ != (#[trigger] q.review_claims[j]).node@ by {
                assert(q.review_claims[i] == p.review_claims[i]);
            }
        },
        Some(ProtocolComment::Review { node, .. }) => {
            assert forall|i: int, j: int| 0 <= i < j < q.reviews.len() implies (
            #[trigger] q.reviews[i]).node@ != (#[trigger] q.reviews[j]).node@ by {
                assert(q.reviews[i] == p.reviews[i]);
            }
        },
        _ => {},
    }
}

/// Every discussion of a pull request is sound.
pub proof fn pull_request_discussion_is_sound(
    pr: PullRequest,
    comments: Seq<ProtocolEnvelope>,
    config: ProtocolConfig,
)
    ensures
        PullRequestProgress::after(pr, comments, config).sound(pr),
    decreases comments.len(),
{
    if comments.len() > 0 {
        pull_request_discussion_is_sound(pr, comments.drop_last(), config);
        lemma_pull_request_step(
            PullRequestProgress::after(pr, comments.drop_last(), config),
            pr,
            comments.last(),
            config,
        );
    }
}

/// A decision is final: no later comment changes it, the policy pass, the claims or the reviews.
pub proof fn decision_is_final(
    p: PullRequestProgress,
    pr: PullRequest,
    c: ProtocolEnvelope,
    config: ProtocolConfig,
)
    requires
        p.decision is Some,
    ensures
        p.step(pr, c, config).decision == p.decision,
        p.step(pr, c, config).policy_pass == p.policy_pass,
        p.step(pr, c, config).review_claims == p.review_claims,
        p.step(pr, c, config).reviews == p.reviews,
{
}

/// Only the lead passes and decides: without a comment of the lead there is no policy pass and no
/// decision.
pub proof fn only_the_lead_decides(
    pr: PullRequest,
    comments: Seq<ProtocolEnvelope>,
    config: ProtocolConfig,
)
    requires
        forall|i: int|
            0 <= i < comments.len() ==> !validation::is_lead(
                (#[trigger] comments[i]).author@,
                config,
            ),
    ensures
        !PullRequestProgress::after(pr, comments, config).policy_pass,
        PullRequestProgress::after(pr, comments, config).decision is None,
    decreases comments.len(),
{
    if comments.len() > 0 {
        let rest = comments.drop_last();
        assert forall|i: int| 0 <= i < rest.len() implies !validation::is_lead(
            (#[trigger] rest[i]).author@,
            config,
        ) by {
            assert(rest[i] == comments[i]);
        }
        only_the_lead_decides(pr, rest, config);
        assert(comments[comments.len() - 1] == comments.last());
    }
}

/// The comment is a word of the maintainer.
pub open spec fn is_word_of_maintainer(c: ProtocolEnvelope, config: ProtocolConfig) -> bool {
    validation::is_maintainer(c.author@, config) && (c.protocol matches Some(p) && (
    p is SlashApprove || p is SlashReject))
}

/// On a candidate the last word of the maintainer stands, and nobody else's word changes it.
pub proof fn the_maintainers_last_word_stands_on_a_candidate(
    p: PullRequestProgress,
    pr: PullRequest,
    c: ProtocolEnvelope,
    config: ProtocolConfig,
)
    ensures
        ({
            let next = p.step(pr, c, config);
            if is_word_of_maintainer(c, config) {
                next.maintainer_approved == (c.protocol->Some_0 is SlashApprove)
                    && next.maintainer_rejected == (c.protocol->Some_0 is SlashReject)
            } else {
                next.maintainer_approved == p.maintainer_approved && next.maintainer_rejected
                    == p.maintainer_rejected
            }
        }),
{
}

/// On an issue the last word of the maintainer stands, and nobody else's word changes it. Where
/// theses are not approved by themselves, `/approve` approves the thesis.
pub proof fn the_maintainers_last_word_stands_on_an_issue(
    p: IssueProgress,
    x: IssueContext,
    c: ProtocolEnvelope,
)
    ensures
        ({
            let next = p.step(x, c);
            if is_word_of_maintainer(c, x.config) {
                next.maintainer_approved == (c.protocol->Some_0 is SlashApprove)
                    && next.maintainer_rejected == (c.protocol->Some_0 is SlashReject)
            } else {
                next.maintainer_approved == p.maintainer_approved && next.maintainer_rejected
                    == p.maintainer_rejected
            }
        }),
        is_word_of_maintainer(c, x.config) && c.protocol->Some_0 is SlashApprove
            && !x.config.auto_approve ==> p.step(x, c).approved,
{
}

/// The comment is a note of the lead that acknowledges the comment with this number.
pub open spec fn acknowledges(c: ProtocolEnvelope, config: ProtocolConfig, id: u64) -> bool {
    &&& validation::is_lead(c.author@, config)
    &&& c.protocol matches Some(ProtocolComment::AdminNote { action, related_comment_id, .. })
        && action@ == "acknowledge_invalid"@ && related_comment_id == Some(id)
}

/// The list `a` holds what `b` holds, and `id`.
pub open spec fn one_more(a: Seq<u64>, b: Seq<u64>, id: u64) -> bool {
    forall|y: u64| #[trigger] a.contains(y) <==> b.contains(y) || y == id
}

proof fn lemma_one_more_push(a: Seq<u64>, b: Seq<u64>, id: u64, x: u64)
    requires
        one_more(a, b, id),
    ensures
        one_more(a.push(x), b.push(x), id),
{
    assert forall|y: u64| #[trigger] a.push(x).contains(y) <==> b.push(x).contains(y) || y == id by {
        lemma_push_contains(a, x, y);
        lemma_push_contains(b, x, y);
        assert(a.contains(y) <==> b.contains(y) || y == id);
    }
}

proof fn lemma_push_contains(a: Seq<u64>, x: u64, y: u64)
    ensures
        a.push(x).contains(y) <==> a.contains(y) || y == x,
{
    if a.contains(y) {
        let k = choose|k: int| 0 <= k < a.len() && a[k] == y;
        assert(a.push(x)[k] == y);
    }
    if y == x {
        assert(a.push(x)[a.len() as int] == y);
    }
    if a.push(x).contains(y) && y != x {
        let k = choose|k: int| 0 <= k < a.push(x).len() && a.push(x)[k] == y;
        assert(a[k] == y);
    }
}

proof fn lemma_acknowledged_twice(findings: Seq<FindingView>, a: Seq<u64>, b: Seq<u64>, id: u64)
    requires
        one_more(a, b, id),
    ensures
        validation::unacknowledged(findings, a) == validation::unacknowledged(
            validation::unacknowledged(findings, b),
            seq![id],
        ),
    decreases findings.len(),
{
    if findings.len() > 0 {
        let rest = findings.drop_last();
        let f = findings.last();
        lemma_acknowledged_twice(rest, a, b, id);
        let q = validation::unacknowledged(rest, b);
        assert(q.push(f).drop_last() =~= q);
        assert(seq![id][0] == id);
        if let Some(y) = f.comment_id {
            assert(a.contains(y) <==> b.contains(y) || y == id);
        }
    }
}

/// Everything that two discussions of an issue have come to is the same but what was acknowledged.
pub open spec fn same_issue_but_acknowledged(p: IssueProgress, q: IssueProgress) -> bool {
    p == (IssueProgress { acknowledged: p.acknowledged, ..q })
}

/// Everything that two discussions of a candidate have come to is the same but what was
/// acknowledged.
pub open spec fn same_candidate_but_acknowledged(
    p: PullRequestProgress,
    q: PullRequestProgress,
) -> bool {
    p == (PullRequestProgress { acknowledged: p.acknowledged, ..q })
}

proof fn lemma_issue_note_left_out(
    x: IssueContext,
    comments: Seq<ProtocolEnvelope>,
    k: int,
    id: u64,
)
    requires
        0 <= k < comments.len(),
        acknowledges(comments[k], x.config, id),
    ensures
        ({
            let p = IssueProgress::after(x, comments);
            let q = IssueProgress::after(x, comments.remove(k));
            same_issue_but_acknowledged(p, q) && one_more(p.acknowledged, q.acknowledged, id)
        }),
    decreases comments.len(),
{
    let rest = comments.drop_last();
    let c = comments.last();
    if k == comments.len() - 1 {
        assert(comments.remove(k) =~= rest);
        let q = IssueProgress::after(x, rest);
        assert forall|y: u64|
            #[trigger] q.acknowledged.push(id).contains(y) <==> q.acknowledged.contains(y) || y
                == id by {
            lemma_push_contains(q.acknowledged, id, y);
        }
    } else {
        assert(rest[k] == comments[k]);
        lemma_issue_note_left_out(x, rest, k, id);
        assert(comments.remove(k).drop_last() =~= rest.remove(k));
        assert(comments.remove(k).last() == c);
        let p = IssueProgress::after(x, rest);
        let q = IssueProgress::after(x, rest.remove(k));
        match c.protocol {
            Some(ProtocolComment::AdminNote { related_comment_id: Some(y), .. }) => {
                lemma_one_more_push(p.acknowledged, q.acknowledged, id, y);
            },
            _ => {},
        }
    }
}

proof fn lemma_candidate_note_left_out(
    pr: PullRequest,
    config: ProtocolConfig,
    comments: Seq<ProtocolEnvelope>,
    k: int,
    id: u64,
)
    requires
        0 <= k < comments.len(),
        acknowledges(comments[k], config, id),
    ensures
        ({
            let p = PullRequestProgress::after(pr, comments, config);
            let q = PullRequestProgress::after(pr, comments.remove(k), config);
            same_candidate_but_acknowledged(p, q) && one_more(p.acknowledged, q.acknowledged, id)
        }),
    decreases comments.len(),
{
    let rest = comments.drop_last();
    let c = comments.last();
    if k == comments.len() - 1 {
        assert(comments.remove(k) =~= rest);
        let q = PullRequestProgress::after(pr, rest, config);
        assert forall|y: u64|
            #[trigger] q.acknowledged.push(id).contains(y) <==> q.acknowledged.contains(y) || y
                == id by {
            lemma_push_contains(q.acknowledged, id, y);
        }
    } else {
        assert(rest[k] == comments[k]);
        lemma_candidate_note_left_out(pr, config, rest, k, id);
        assert(comments.remove(k).drop_last() =~= rest.remove(k));
        assert(comments.remove(k).last() == c);
        let p = PullRequestProgress::after(pr, rest, config);
        let q = PullRequestProgress::after(pr, rest.remove(k), config);
        match c.protocol {
            Some(ProtocolComment::AdminNote { related_comment_id: Some(y), .. }) => {
                lemma_one_more_push(p.acknowledged, q.acknowledged, id, y);
            },
            _ => {},
        }
    }
}

proof fn lemma_same_invalidated(
    attempts: Seq<validation::ValidAttemptRecord>,
    a: Seq<u64>,
    b: Seq<u64>,
    id: u64,
)
    requires
        one_more(a, b, id),
        forall|i: int| 0 <= i < attempts.len() ==> (#[trigger] attempts[i]).comment_id != id,
    ensures
        IssueProgress::invalidated(attempts, a) == IssueProgress::invalidated(attempts, b),
    decreases attempts.len(),
{
    if attempts.len() > 0 {
        let rest = attempts.drop_last();
        assert forall|i: int| 0 <= i < rest.len() implies (#[trigger] rest[i]).comment_id != id by {
            assert(rest[i] == attempts[i]);
        }
        lemma_same_invalidated(rest, a, b, id);
        let y = attempts.last().comment_id;
        assert(attempts[attempts.len() - 1].comment_id != id);
        assert(a.contains(y) <==> b.contains(y) || y == id);
    }
}

/// A note of the lead that acknowledges a comment on an issue, whenever it was posted, takes the
/// findings on that comment away and changes nothing else of what counts, but that an attempt which
/// that comment recorded is invalidated.
pub proof fn acknowledging_changes_only_findings(
    x: IssueContext,
    comments: Seq<ProtocolEnvelope>,
    k: int,
    id: u64,
    r: IssueValidation,
    without: IssueValidation,
)
    requires
        0 <= k < comments.len(),
        acknowledges(comments[k], x.config, id),
        r.is(IssueProgress::after(x, sort::sorted(comments))),
        without.is(IssueProgress::after(x, sort::sorted(comments.remove(k)))),
    ensures
        validation::finding_views(r.findings@) == validation::unacknowledged(
            validation::finding_views(without.findings@),
            seq![id],
        ),
        forall|i: int| 0 <= i < r.findings@.len() ==> (#[trigger] r.findings@[i]).comment_id != Some(id),
        r.approved == without.approved,
        r.maintainer_approved == without.maintainer_approved,
        r.maintainer_rejected == without.maintainer_rejected,
        r.active_claims@ == without.active_claims@,
        r.releases@ == without.releases@,
        r.attempts@ == without.attempts@,
        (forall|i: int|
            0 <= i < r.attempts@.len() ==> (#[trigger] r.attempts@[i]).comment_id != id)
            ==> text::texts(r.invalidated_attempt_branches@) == text::texts(
            without.invalidated_attempt_branches@,
        ),
{
    let j = sort::sorted_without_one(comments, k);
    let all = sort::sorted(comments);
    lemma_issue_note_left_out(x, all, j, id);
    let p = IssueProgress::after(x, all);
    let q = IssueProgress::after(x, all.remove(j));
    lemma_acknowledged_twice(p.findings, p.acknowledged, q.acknowledged, id);
    lemma_none_left(p.findings, p.acknowledged, r.findings@, id);
    if forall|i: int| 0 <= i < r.attempts@.len() ==> (#[trigger] r.attempts@[i]).comment_id != id {
        lemma_same_invalidated(p.attempts, p.acknowledged, q.acknowledged, id);
    }
}

proof fn lemma_none_left(
    findings: Seq<FindingView>,
    acknowledged: Seq<u64>,
    left: Seq<validation::AuditFinding>,
    id: u64,
)
    requires
        acknowledged.contains(id),
        validation::finding_views(left) == validation::unacknowledged(findings, acknowledged),
    ensures
        forall|i: int| 0 <= i < left.len() ==> (#[trigger] left[i]).comment_id != Some(id),
{
    acknowledged_findings_are_dropped(findings, acknowledged);
    let r = validation::unacknowledged(findings, acknowledged);
    assert forall|i: int| 0 <= i < left.len() implies (#[trigger] left[i]).comment_id != Some(
        id,
    ) by {
        assert(r[i] == left[i]@);
        assert(r.contains(r[i]));
    }
}

/// A note of the lead that acknowledges a comment on a candidate, whenever it was posted, takes the
/// findings on that comment away and changes nothing else of what counts.
pub proof fn acknowledging_changes_only_findings_on_a_candidate(
    pr: PullRequest,
    config: ProtocolConfig,
    comments: Seq<ProtocolEnvelope>,
    k: int,
    id: u64,
    r: PullRequestValidation,
    without: PullRequestValidation,
)
    requires
        0 <= k < comments.len(),
        acknowledges(comments[k], config, id),
        r.is(pr, PullRequestProgress::after(pr, sort::sorted(comments), config)),
        without.is(pr, PullRequestProgress::after(pr, sort::sorted(comments.remove(k)), config)),
    ensures
        validation::finding_views(r.findings@) == validation::unacknowledged(
            validation::finding_views(without.findings@),
            seq![id],
        ),
        forall|i: int| 0 <= i < r.findings@.len() ==> (#[trigger] r.findings@[i]).comment_id != Some(id),
        r.thesis_number == without.thesis_number,
        r.policy_pass == without.policy_pass,
        r.maintainer_approved == without.maintainer_approved,
        r.maintainer_rejected == without.maintainer_rejected,
        r.review_claims@ == without.review_claims@,
        r.reviews@ == without.reviews@,
        r.decision == without.decision,
{
    let j = sort::sorted_without_one(comments, k);
    let all = sort::sorted(comments);
    lemma_candidate_note_left_out(pr, config, all, j, id);
    let p = PullRequestProgress::after(pr, all, config);
    let q = PullRequestProgress::after(pr, all.remove(j), config);
    lemma_acknowledged_twice(p.findings, p.acknowledged, q.acknowledged, id);
    lemma_none_left(p.findings, p.acknowledged, r.findings@, id);
}

} // verus!
