//! State comes from the trail of comments, not from labels.
use crate::comments;
use crate::config::{MetricDirection, ProtocolConfig};
use crate::github::{Issue, IssueComment, PullRequest};
use crate::metric::Metric;
use crate::sort;
use crate::state;
use crate::state::{
    ActivityEvent, AttemptRecord, ClaimRecord, DecisionRecord, PullRequestState, PullRequestView,
    ReleaseRecord, RepositoryState, ReviewClaimRecord, ReviewRecord, ThesisState,
};
use crate::text;
use crate::time::Timestamp;
use crate::validation;
use crate::validation::{
    AuditFinding, IssueContext, IssueProgress, ProtocolEnvelope, PullRequestProgress,
    ValidAttemptRecord, ValidClaimRecord, ValidReleaseRecord, ValidReviewClaimRecord,
    ValidReviewRecord,
};
use vstd::prelude::*;

verus! {

/// The two issues differ in their labels at most.
pub open spec fn same_but_labels(a: Issue, b: Issue) -> bool {
    b == (Issue { labels: b.labels, ..a })
}

/// The two claims hold the same.
pub open spec fn like_claim(a: ClaimRecord, b: ClaimRecord) -> bool {
    a.node@ == b.node@ && a.created_at == b.created_at && a.expired == b.expired
}

/// The two releases hold the same.
pub open spec fn like_release(a: ReleaseRecord, b: ReleaseRecord) -> bool {
    a.node@ == b.node@ && a.reason == b.reason && a.created_at == b.created_at
}

/// The two attempts hold the same.
pub open spec fn like_attempt(a: AttemptRecord, b: AttemptRecord) -> bool {
    &&& a.thesis == b.thesis
    &&& a.node@ == b.node@
    &&& a.branch@ == b.branch@
    &&& a.metric@ == b.metric@
    &&& comments::option_metric(a.baseline_metric) == comments::option_metric(b.baseline_metric)
    &&& a.observation == b.observation
    &&& a.summary@ == b.summary@
    &&& a.author@ == b.author@
    &&& a.created_at == b.created_at
    &&& a.comment_id == b.comment_id
}

/// The two claims to review hold the same.
pub open spec fn like_review_claim(a: ReviewClaimRecord, b: ReviewClaimRecord) -> bool {
    a.node@ == b.node@ && a.created_at == b.created_at
}

/// The two reviews hold the same.
pub open spec fn like_review(a: ReviewRecord, b: ReviewRecord) -> bool {
    &&& a.node@ == b.node@
    &&& a.metric@ == b.metric@
    &&& a.baseline_metric@ == b.baseline_metric@
    &&& a.observation == b.observation
    &&& a.candidate_sha@ == b.candidate_sha@
    &&& a.base_sha@ == b.base_sha@
    &&& comments::option_text(a.env_sha) == comments::option_text(b.env_sha)
    &&& a.timestamp == b.timestamp
    &&& a.created_at == b.created_at
}

/// The two decisions, where there are any, hold the same.
pub open spec fn like_decision(a: Option<DecisionRecord>, b: Option<DecisionRecord>) -> bool {
    match (a, b) {
        (Some(d), Some(e)) => d.outcome == e.outcome && d.candidate_sha@ == e.candidate_sha@
            && d.confirmations == e.confirmations && d.created_at == e.created_at,
        (None, None) => true,
        _ => false,
    }
}

/// The two states of candidates hold the same.
pub open spec fn like_candidate(a: PullRequestView, b: PullRequestView) -> bool {
    &&& a.pr == b.pr
    &&& a.thesis_number == b.thesis_number
    &&& a.policy_pass == b.policy_pass
    &&& a.maintainer_approved == b.maintainer_approved
    &&& a.maintainer_rejected == b.maintainer_rejected
    &&& a.review_claims.len() == b.review_claims.len()
    &&& forall|i: int|
        0 <= i < a.review_claims.len() ==> like_review_claim(
            #[trigger] a.review_claims[i],
            #[trigger] b.review_claims[i],
        )
    &&& a.reviews.len() == b.reviews.len()
    &&& forall|i: int|
        0 <= i < a.reviews.len() ==> like_review(
            #[trigger] a.reviews[i],
            #[trigger] b.reviews[i],
        )
    &&& like_decision(a.decision, b.decision)
    &&& validation::finding_views(a.findings) == validation::finding_views(b.findings)
}

/// The states of candidates hold the same, one for one.
pub open spec fn like_candidates(a: Seq<PullRequestView>, b: Seq<PullRequestView>) -> bool {
    a.len() == b.len() && forall|i: int|
        0 <= i < a.len() ==> like_candidate(#[trigger] a[i], #[trigger] b[i])
}

/// The two states of theses hold the same but for the labels of the issue.
pub open spec fn like_thesis(a: ThesisState, b: ThesisState) -> bool {
    &&& same_but_labels(a.issue, b.issue)
    &&& a.phase == b.phase
    &&& a.approved == b.approved
    &&& a.maintainer_approved == b.maintainer_approved
    &&& a.maintainer_rejected == b.maintainer_rejected
    &&& a.active_claims@.len() == b.active_claims@.len()
    &&& forall|i: int|
        0 <= i < a.active_claims@.len() ==> like_claim(
            #[trigger] a.active_claims@[i],
            #[trigger] b.active_claims@[i],
        )
    &&& a.releases@.len() == b.releases@.len()
    &&& forall|i: int|
        0 <= i < a.releases@.len() ==> like_release(
            #[trigger] a.releases@[i],
            #[trigger] b.releases@[i],
        )
    &&& a.attempts@.len() == b.attempts@.len()
    &&& forall|i: int|
        0 <= i < a.attempts@.len() ==> like_attempt(
            #[trigger] a.attempts@[i],
            #[trigger] b.attempts@[i],
        )
    &&& like_candidates(
        state::pull_request_views(a.pull_requests@),
        state::pull_request_views(b.pull_requests@),
    )
    &&& comments::option_metric(a.best_attempt_metric) == comments::option_metric(
        b.best_attempt_metric,
    )
    &&& text::texts(a.invalidated_attempt_branches@) == text::texts(b.invalidated_attempt_branches@)
    &&& validation::finding_views(a.findings@) == validation::finding_views(b.findings@)
}

/// The two states of a project hold the same but for the labels of the issues.
pub open spec fn like_repository(a: RepositoryState, b: RepositoryState) -> bool {
    &&& a.theses@.len() == b.theses@.len()
    &&& forall|i: int|
        0 <= i < a.theses@.len() ==> like_thesis(#[trigger] a.theses@[i], #[trigger] b.theses@[i])
    &&& a.pull_request_count == b.pull_request_count
    &&& text::texts(a.active_nodes@) == text::texts(b.active_nodes@)
    &&& a.queue_depth == b.queue_depth
    &&& comments::option_metric(a.current_best_accepted_metric) == comments::option_metric(
        b.current_best_accepted_metric,
    )
    &&& text::texts(a.invalidated_attempt_branches@) == text::texts(b.invalidated_attempt_branches@)
    &&& state::event_views(a.recent_events@) == state::event_views(b.recent_events@)
    &&& validation::finding_views(a.audit_findings@) == validation::finding_views(b.audit_findings@)
}

spec fn like_envelope(c: ProtocolEnvelope, d: ProtocolEnvelope) -> bool {
    &&& c.id == d.id
    &&& c.author == d.author
    &&& c.created_at == d.created_at
    &&& match (c.protocol, d.protocol) {
        (Some(p), Some(q)) => p@ == q@,
        (None, None) => true,
        _ => false,
    }
}

spec fn like_valid_claim(a: Option<ValidClaimRecord>, b: Option<ValidClaimRecord>) -> bool {
    match (a, b) {
        (Some(c), Some(d)) => like_claim(state::shown_claim(c), state::shown_claim(d))
            && c.author_login == d.author_login,
        (None, None) => true,
        _ => false,
    }
}

spec fn like_valid_attempt(a: ValidAttemptRecord, b: ValidAttemptRecord) -> bool {
    like_attempt(state::shown_attempt(a), state::shown_attempt(b))
}

spec fn like_valid_release(a: ValidReleaseRecord, b: ValidReleaseRecord) -> bool {
    like_release(state::shown_release(a), state::shown_release(b))
}

spec fn like_issue_progress(p: IssueProgress, q: IssueProgress) -> bool {
    &&& p.approved == q.approved
    &&& p.maintainer_approved == q.maintainer_approved
    &&& p.maintainer_rejected == q.maintainer_rejected
    &&& like_valid_claim(p.claim, q.claim)
    &&& p.releases.len() == q.releases.len()
    &&& forall|i: int|
        0 <= i < p.releases.len() ==> like_valid_release(
            #[trigger] p.releases[i],
            #[trigger] q.releases[i],
        )
    &&& p.attempts.len() == q.attempts.len()
    &&& forall|i: int|
        0 <= i < p.attempts.len() ==> like_valid_attempt(
            #[trigger] p.attempts[i],
            #[trigger] q.attempts[i],
        )
    &&& p.findings == q.findings
    &&& p.acknowledged == q.acknowledged
}

spec fn like_context(x: IssueContext, y: IssueContext) -> bool {
    y == (IssueContext { issue: y.issue, ..x }) && same_but_labels(x.issue, y.issue)
}

proof fn lemma_issue_step(
    x: IssueContext,
    y: IssueContext,
    p: IssueProgress,
    q: IssueProgress,
    c: ProtocolEnvelope,
    d: ProtocolEnvelope,
)
    requires
        like_context(x, y),
        like_issue_progress(p, q),
        like_envelope(c, d),
    ensures
        like_issue_progress(p.step(x, c), q.step(y, d)),
{
    if let Some(comments::ProtocolComment::Attempt { branch, .. }) = c.protocol {
        lemma_branch_recorded(p.attempts, q.attempts, branch@);
    }
}

proof fn lemma_branch_recorded(
    a: Seq<ValidAttemptRecord>,
    b: Seq<ValidAttemptRecord>,
    branch: Seq<char>,
)
    requires
        a.len() == b.len(),
        forall|i: int| 0 <= i < a.len() ==> like_valid_attempt(#[trigger] a[i], #[trigger] b[i]),
    ensures
        validation::branch_recorded(a, branch) == validation::branch_recorded(b, branch),
{
    if validation::branch_recorded(a, branch) {
        let i = choose|i: int| 0 <= i < a.len() && (#[trigger] a[i]).branch@ == branch;
        assert(like_valid_attempt(a[i], b[i]));
        assert(b[i].branch@ == branch);
    }
    if validation::branch_recorded(b, branch) {
        let i = choose|i: int| 0 <= i < b.len() && (#[trigger] b[i]).branch@ == branch;
        assert(like_valid_attempt(a[i], b[i]));
        assert(a[i].branch@ == branch);
    }
}

spec fn like_envelopes(a: Seq<ProtocolEnvelope>, b: Seq<ProtocolEnvelope>) -> bool {
    a.len() == b.len() && forall|i: int|
        0 <= i < a.len() ==> like_envelope(#[trigger] a[i], #[trigger] b[i])
}

proof fn lemma_drop_last(a: Seq<ProtocolEnvelope>, b: Seq<ProtocolEnvelope>)
    requires
        like_envelopes(a, b),
        a.len() > 0,
    ensures
        like_envelopes(a.drop_last(), b.drop_last()),
        like_envelope(a.last(), b.last()),
{
    assert(like_envelope(a[a.len() - 1], b[b.len() - 1]));
    let s = a.drop_last();
    let t = b.drop_last();
    assert forall|i: int| 0 <= i < s.len() implies like_envelope(#[trigger] s[i], #[trigger] t[i]) by {
        assert(s[i] == a[i] && t[i] == b[i]);
    }
}

proof fn lemma_issue_after(
    x: IssueContext,
    y: IssueContext,
    a: Seq<ProtocolEnvelope>,
    b: Seq<ProtocolEnvelope>,
)
    requires
        like_context(x, y),
        like_envelopes(a, b),
    ensures
        like_issue_progress(IssueProgress::after(x, a), IssueProgress::after(y, b)),
    decreases a.len(),
{
    if a.len() > 0 {
        lemma_drop_last(a, b);
        lemma_issue_after(x, y, a.drop_last(), b.drop_last());
        lemma_issue_step(
            x,
            y,
            IssueProgress::after(x, a.drop_last()),
            IssueProgress::after(y, b.drop_last()),
            a.last(),
            b.last(),
        );
    }
}

proof fn lemma_read_alike(
    a: Seq<ProtocolEnvelope>,
    b: Seq<ProtocolEnvelope>,
    posted: Seq<IssueComment>,
)
    requires
        state::reads(a, posted),
        state::reads(b, posted),
    ensures
        like_envelopes(sort::sorted(a), sort::sorted(b)),
{
    let alike = |c: ProtocolEnvelope, d: ProtocolEnvelope| like_envelope(c, d);
    assert forall|i: int| 0 <= i < a.len() implies alike(#[trigger] a[i], #[trigger] b[i]) by {}
    sort::sorted_alike(a, b, alike);
    let (s, t) = (sort::sorted(a), sort::sorted(b));
    assert forall|i: int| 0 <= i < s.len() implies like_envelope(#[trigger] s[i], #[trigger] t[i]) by {
        assert(alike(s[i], t[i]));
    }
}

spec fn like_valid_review_claim(a: ValidReviewClaimRecord, b: ValidReviewClaimRecord) -> bool {
    like_review_claim(state::shown_review_claim(a), state::shown_review_claim(b)) && a.author_login
        == b.author_login
}

spec fn like_valid_review(a: ValidReviewRecord, b: ValidReviewRecord) -> bool {
    like_review(state::shown_review(a), state::shown_review(b))
}

spec fn shown_decision(d: Option<validation::ValidDecisionRecord>) -> Option<DecisionRecord> {
    match d {
        Some(d) => Some(state::shown_decision(d)),
        None => None,
    }
}

spec fn like_candidate_progress(p: PullRequestProgress, q: PullRequestProgress) -> bool {
    &&& p.policy_pass == q.policy_pass
    &&& p.maintainer_approved == q.maintainer_approved
    &&& p.maintainer_rejected == q.maintainer_rejected
    &&& p.review_claims.len() == q.review_claims.len()
    &&& forall|i: int|
        0 <= i < p.review_claims.len() ==> like_valid_review_claim(
            #[trigger] p.review_claims[i],
            #[trigger] q.review_claims[i],
        )
    &&& p.reviews.len() == q.reviews.len()
    &&& forall|i: int|
        0 <= i < p.reviews.len() ==> like_valid_review(
            #[trigger] p.reviews[i],
            #[trigger] q.reviews[i],
        )
    &&& like_decision(shown_decision(p.decision), shown_decision(q.decision))
    &&& p.findings == q.findings
    &&& p.acknowledged == q.acknowledged
}

proof fn lemma_reviewed(
    p: PullRequestProgress,
    q: PullRequestProgress,
    node: Seq<char>,
    author: Seq<char>,
)
    requires
        like_candidate_progress(p, q),
    ensures
        validation::review_claimed(p.review_claims, node) ==> validation::review_claimed(
            q.review_claims,
            node,
        ),
        validation::review_claimed_by(p.review_claims, node, author)
            ==> validation::review_claimed_by(q.review_claims, node, author),
        validation::reviewed(p.reviews, node) ==> validation::reviewed(q.reviews, node),
{
    let (a, b) = (p.review_claims, q.review_claims);
    if validation::review_claimed(a, node) {
        let i = choose|i: int| 0 <= i < a.len() && (#[trigger] a[i]).node@ == node;
        assert(like_valid_review_claim(a[i], b[i]));
        assert(b[i].node@ == node);
    }
    if validation::review_claimed_by(a, node, author) {
        let i = choose|i: int|
            0 <= i < a.len() && (#[trigger] a[i]).node@ == node && a[i].author_login@ == author;
        assert(like_valid_review_claim(a[i], b[i]));
        assert(b[i].node@ == node);
    }
    if validation::reviewed(p.reviews, node) {
        let i = choose|i: int| 0 <= i < p.reviews.len() && (#[trigger] p.reviews[i]).node@ == node;
        assert(like_valid_review(p.reviews[i], q.reviews[i]));
        assert(q.reviews[i].node@ == node);
    }
}

proof fn lemma_turned(p: PullRequestProgress, q: PullRequestProgress)
    requires
        like_candidate_progress(p, q),
    ensures
        like_candidate_progress(q, p),
{
    assert forall|i: int| 0 <= i < q.review_claims.len() implies like_valid_review_claim(
        #[trigger] q.review_claims[i],
        #[trigger] p.review_claims[i],
    ) by {
        assert(like_valid_review_claim(p.review_claims[i], q.review_claims[i]));
    }
    assert forall|i: int| 0 <= i < q.reviews.len() implies like_valid_review(
        #[trigger] q.reviews[i],
        #[trigger] p.reviews[i],
    ) by {
        assert(like_valid_review(p.reviews[i], q.reviews[i]));
    }
}

proof fn lemma_candidate_step(
    pr: PullRequest,
    config: ProtocolConfig,
    p: PullRequestProgress,
    q: PullRequestProgress,
    c: ProtocolEnvelope,
    d: ProtocolEnvelope,
)
    requires
        like_candidate_progress(p, q),
        like_envelope(c, d),
    ensures
        like_candidate_progress(p.step(pr, c, config), q.step(pr, d, config)),
{
    lemma_turned(p, q);
    match c.protocol {
        Some(comments::ProtocolComment::ReviewClaim { node, .. }) => {
            lemma_reviewed(p, q, node@, c.author@);
            lemma_reviewed(q, p, node@, c.author@);
        },
        Some(comments::ProtocolComment::Review { node, .. }) => {
            lemma_reviewed(p, q, node@, c.author@);
            lemma_reviewed(q, p, node@, c.author@);
        },
        _ => {},
    }
}

proof fn lemma_candidate_after(
    pr: PullRequest,
    config: ProtocolConfig,
    a: Seq<ProtocolEnvelope>,
    b: Seq<ProtocolEnvelope>,
)
    requires
        like_envelopes(a, b),
    ensures
        like_candidate_progress(
            PullRequestProgress::after(pr, a, config),
            PullRequestProgress::after(pr, b, config),
        ),
    decreases a.len(),
{
    if a.len() > 0 {
        lemma_drop_last(a, b);
        lemma_candidate_after(pr, config, a.drop_last(), b.drop_last());
        lemma_candidate_step(
            pr,
            config,
            PullRequestProgress::after(pr, a.drop_last(), config),
            PullRequestProgress::after(pr, b.drop_last(), config),
            a.last(),
            b.last(),
        );
    }
}

/// One trail of comments gives one state of a candidate.
pub proof fn candidates_come_from_comments(
    a: PullRequestState,
    b: PullRequestState,
    pr: PullRequest,
    posted: Seq<IssueComment>,
    config: ProtocolConfig,
)
    requires
        a.derived(pr, posted, config),
        b.derived(pr, posted, config),
    ensures
        like_candidate(a@, b@),
{
    let s = choose|s: Seq<ProtocolEnvelope>| #[trigger]
        state::reads(s, posted) && a.shows(
            pr,
            PullRequestProgress::after(pr, sort::sorted(s), config),
        );
    let t = choose|t: Seq<ProtocolEnvelope>| #[trigger]
        state::reads(t, posted) && b.shows(
            pr,
            PullRequestProgress::after(pr, sort::sorted(t), config),
        );
    lemma_read_alike(s, t, posted);
    lemma_candidate_after(pr, config, sort::sorted(s), sort::sorted(t));
    let p = PullRequestProgress::after(pr, sort::sorted(s), config);
    let q = PullRequestProgress::after(pr, sort::sorted(t), config);
    assert forall|i: int| 0 <= i < a@.review_claims.len() implies like_review_claim(
        #[trigger] a@.review_claims[i],
        #[trigger] b@.review_claims[i],
    ) by {
        assert(like_valid_review_claim(p.review_claims[i], q.review_claims[i]));
    }
    assert forall|i: int| 0 <= i < a@.reviews.len() implies like_review(
        #[trigger] a@.reviews[i],
        #[trigger] b@.reviews[i],
    ) by {
        assert(like_valid_review(p.reviews[i], q.reviews[i]));
    }
}

proof fn lemma_candidates_for(a: Seq<PullRequestView>, b: Seq<PullRequestView>, number: u64)
    requires
        like_candidates(a, b),
    ensures
        like_candidates(state::candidates_for(a, number), state::candidates_for(b, number)),
    decreases a.len(),
{
    if a.len() > 0 {
        assert(like_candidate(a[a.len() - 1], b[b.len() - 1]));
        let (s, t) = (a.drop_last(), b.drop_last());
        assert forall|i: int| 0 <= i < s.len() implies like_candidate(
            #[trigger] s[i],
            #[trigger] t[i],
        ) by {
            assert(s[i] == a[i] && t[i] == b[i]);
        }
        lemma_candidates_for(s, t, number);
    }
}

proof fn lemma_latest_decision(a: Seq<PullRequestView>, b: Seq<PullRequestView>)
    requires
        like_candidates(a, b),
    ensures
        like_decision(state::latest_decision(a), state::latest_decision(b)),
    decreases a.len(),
{
    if a.len() > 0 {
        assert(like_candidate(a[a.len() - 1], b[b.len() - 1]));
        let (s, t) = (a.drop_last(), b.drop_last());
        assert forall|i: int| 0 <= i < s.len() implies like_candidate(
            #[trigger] s[i],
            #[trigger] t[i],
        ) by {
            assert(s[i] == a[i] && t[i] == b[i]);
        }
        lemma_latest_decision(s, t);
    }
}

proof fn lemma_open(a: Seq<PullRequestView>, b: Seq<PullRequestView>)
    requires
        like_candidates(a, b),
    ensures
        state::some_in_review(a) == state::some_in_review(b),
        state::some_open(a) == state::some_open(b),
{
    if state::some_in_review(a) {
        let i = choose|i: int|
            0 <= i < a.len() && state::is_open(#[trigger] a[i]) && a[i].policy_pass;
        assert(like_candidate(a[i], b[i]));
        assert(state::is_open(b[i]));
    }
    if state::some_in_review(b) {
        let i = choose|i: int|
            0 <= i < b.len() && state::is_open(#[trigger] b[i]) && b[i].policy_pass;
        assert(like_candidate(a[i], b[i]));
        assert(state::is_open(a[i]));
    }
    if state::some_open(a) {
        let i = choose|i: int| 0 <= i < a.len() && state::is_open(#[trigger] a[i]);
        assert(like_candidate(a[i], b[i]));
        assert(state::is_open(b[i]));
    }
    if state::some_open(b) {
        let i = choose|i: int| 0 <= i < b.len() && state::is_open(#[trigger] b[i]);
        assert(like_candidate(a[i], b[i]));
        assert(state::is_open(a[i]));
    }
}

proof fn lemma_gave_up(a: Seq<ReleaseRecord>, b: Seq<ReleaseRecord>)
    requires
        a.len() == b.len(),
        forall|i: int| 0 <= i < a.len() ==> like_release(#[trigger] a[i], #[trigger] b[i]),
    ensures
        state::some_gave_up(a) == state::some_gave_up(b),
{
    if state::some_gave_up(a) {
        let i = choose|i: int|
            0 <= i < a.len() && (#[trigger] a[i]).reason == comments::ReleaseReason::NoImprovement;
        assert(like_release(a[i], b[i]));
        assert(b[i].reason == comments::ReleaseReason::NoImprovement);
    }
    if state::some_gave_up(b) {
        let i = choose|i: int|
            0 <= i < b.len() && (#[trigger] b[i]).reason == comments::ReleaseReason::NoImprovement;
        assert(like_release(a[i], b[i]));
        assert(a[i].reason == comments::ReleaseReason::NoImprovement);
    }
}

proof fn lemma_best(a: Seq<Metric>, b: Seq<Metric>, direction: MetricDirection)
    requires
        a.len() == b.len(),
        forall|i: int| 0 <= i < a.len() ==> (#[trigger] a[i])@ == (#[trigger] b[i])@,
    ensures
        comments::option_metric(state::best(a, direction)) == comments::option_metric(
            state::best(b, direction),
        ),
    decreases a.len(),
{
    if a.len() > 0 {
        assert(a[a.len() - 1]@ == b[b.len() - 1]@);
        let (s, t) = (a.drop_last(), b.drop_last());
        assert forall|i: int| 0 <= i < s.len() implies (#[trigger] s[i])@ == (#[trigger] t[i])@ by {
            assert(s[i] == a[i] && t[i] == b[i]);
        }
        lemma_best(s, t, direction);
        let (x, y) = (state::best(s, direction), state::best(t, direction));
        if let (Some(m), Some(n)) = (x, y) {
            assert(m@ == n@);
        }
    }
}

proof fn lemma_invalidated(
    a: Seq<ValidAttemptRecord>,
    b: Seq<ValidAttemptRecord>,
    acknowledged: Seq<u64>,
)
    requires
        a.len() == b.len(),
        forall|i: int| 0 <= i < a.len() ==> like_valid_attempt(#[trigger] a[i], #[trigger] b[i]),
    ensures
        IssueProgress::invalidated(a, acknowledged) == IssueProgress::invalidated(b, acknowledged),
    decreases a.len(),
{
    if a.len() > 0 {
        assert(like_valid_attempt(a[a.len() - 1], b[b.len() - 1]));
        let (s, t) = (a.drop_last(), b.drop_last());
        assert forall|i: int| 0 <= i < s.len() implies like_valid_attempt(
            #[trigger] s[i],
            #[trigger] t[i],
        ) by {
            assert(s[i] == a[i] && t[i] == b[i]);
        }
        lemma_invalidated(s, t, acknowledged);
    }
}

/// One trail of comments gives one state of a thesis, whatever labels its issue has.
pub proof fn theses_come_from_comments(
    a: ThesisState,
    b: ThesisState,
    issue: Issue,
    other: Issue,
    posted: Seq<IssueComment>,
    prs: Seq<PullRequestView>,
    others: Seq<PullRequestView>,
    config: ProtocolConfig,
    now: Timestamp,
)
    requires
        same_but_labels(issue, other),
        like_candidates(prs, others),
        a.derived(issue, posted, prs, config, now),
        b.derived(other, posted, others, config, now),
    ensures
        like_thesis(a, b),
{
    let f = state::candidates_for(prs, issue.number);
    let g = state::candidates_for(others, other.number);
    lemma_candidates_for(prs, others, issue.number);
    lemma_latest_decision(f, g);
    lemma_open(f, g);
    let x = IssueContext {
        issue,
        config,
        latest_decision: match state::latest_decision(f) {
            Some(d) => Some(d.created_at),
            None => None,
        },
        now,
    };
    let y = IssueContext {
        issue: other,
        config,
        latest_decision: match state::latest_decision(g) {
            Some(d) => Some(d.created_at),
            None => None,
        },
        now,
    };
    let s = choose|s: Seq<ProtocolEnvelope>| #[trigger]
        state::reads(s, posted) && a.shows(
            issue,
            f,
            IssueProgress::after(x, sort::sorted(s)),
            config.metric_direction,
        );
    let t = choose|t: Seq<ProtocolEnvelope>| #[trigger]
        state::reads(t, posted) && b.shows(
            other,
            g,
            IssueProgress::after(y, sort::sorted(t)),
            config.metric_direction,
        );
    lemma_read_alike(s, t, posted);
    lemma_issue_after(x, y, sort::sorted(s), sort::sorted(t));
    let p = IssueProgress::after(x, sort::sorted(s));
    let q = IssueProgress::after(y, sort::sorted(t));
    assert forall|i: int| 0 <= i < a.releases@.len() implies like_release(
        #[trigger] a.releases@[i],
        #[trigger] b.releases@[i],
    ) by {
        assert(like_valid_release(p.releases[i], q.releases[i]));
    }
    assert forall|i: int| 0 <= i < a.attempts@.len() implies like_attempt(
        #[trigger] a.attempts@[i],
        #[trigger] b.attempts@[i],
    ) by {
        assert(like_valid_attempt(p.attempts[i], q.attempts[i]));
    }
    lemma_gave_up(a.releases@, b.releases@);
    let (m, n) = (state::attempt_metrics(a.attempts@), state::attempt_metrics(b.attempts@));
    assert forall|i: int| 0 <= i < m.len() implies (#[trigger] m[i])@ == (#[trigger] n[i])@ by {
        assert(like_attempt(a.attempts@[i], b.attempts@[i]));
    }
    lemma_best(m, n, config.metric_direction);
    lemma_invalidated(p.attempts, q.attempts, p.acknowledged);
}

spec fn like_theses(a: Seq<ThesisState>, b: Seq<ThesisState>) -> bool {
    a.len() == b.len() && forall|i: int|
        0 <= i < a.len() ==> like_thesis(#[trigger] a[i], #[trigger] b[i])
}

proof fn lemma_theses_drop_last(a: Seq<ThesisState>, b: Seq<ThesisState>)
    requires
        like_theses(a, b),
        a.len() > 0,
    ensures
        like_theses(a.drop_last(), b.drop_last()),
        like_thesis(a.last(), b.last()),
{
    assert(like_thesis(a[a.len() - 1], b[b.len() - 1]));
    let (s, t) = (a.drop_last(), b.drop_last());
    assert forall|i: int| 0 <= i < s.len() implies like_thesis(#[trigger] s[i], #[trigger] t[i]) by {
        assert(s[i] == a[i] && t[i] == b[i]);
    }
}

proof fn lemma_nodes_and_queue(a: Seq<ThesisState>, b: Seq<ThesisState>, auto_approve: bool)
    requires
        like_theses(a, b),
    ensures
        state::claiming_nodes(a) == state::claiming_nodes(b),
        state::queue_length(a, auto_approve) == state::queue_length(b, auto_approve),
        state::invalidated_branches(a) == state::invalidated_branches(b),
    decreases a.len(),
{
    if a.len() > 0 {
        lemma_theses_drop_last(a, b);
        lemma_nodes_and_queue(a.drop_last(), b.drop_last(), auto_approve);
        let (s, t) = (a.last().active_claims@, b.last().active_claims@);
        let m = s.map_values(|c: ClaimRecord| c.node@);
        let n = t.map_values(|c: ClaimRecord| c.node@);
        assert forall|i: int| 0 <= i < m.len() implies #[trigger] m[i] == n[i] by {
            assert(like_claim(s[i], t[i]));
        }
        assert(m =~= n);
    }
}

proof fn lemma_first_accepted(a: Seq<PullRequestState>, b: Seq<PullRequestState>, i: int)
    requires
        like_candidates(state::pull_request_views(a), state::pull_request_views(b)),
        0 <= i,
    ensures
        state::first_accepted(a, i) == state::first_accepted(b, i),
        state::first_accepted(a, i) matches Some(k) ==> 0 <= k < a.len(),
    decreases a.len() - i,
{
    let (s, t) = (state::pull_request_views(a), state::pull_request_views(b));
    assert(s.len() == a.len() && t.len() == b.len());
    if i < a.len() {
        assert(like_candidate(s[i], t[i]));
        lemma_first_accepted(a, b, i + 1);
    }
}

proof fn lemma_first_on_branch(
    a: Seq<AttemptRecord>,
    b: Seq<AttemptRecord>,
    branch: Seq<char>,
    i: int,
)
    requires
        a.len() == b.len(),
        forall|i: int| 0 <= i < a.len() ==> like_attempt(#[trigger] a[i], #[trigger] b[i]),
        0 <= i,
    ensures
        state::first_on_branch(a, branch, i) == state::first_on_branch(b, branch, i),
        state::first_on_branch(a, branch, i) matches Some(k) ==> 0 <= k < a.len(),
    decreases a.len() - i,
{
    if i < a.len() {
        assert(like_attempt(a[i], b[i]));
        lemma_first_on_branch(a, b, branch, i + 1);
    }
}

proof fn lemma_accepted(a: ThesisState, b: ThesisState)
    requires
        like_thesis(a, b),
    ensures
        comments::option_metric(a.accepted()) == comments::option_metric(b.accepted()),
{
    lemma_first_accepted(a.pull_requests@, b.pull_requests@, 0);
    if let Some(i) = state::first_accepted(a.pull_requests@, 0) {
        let s = state::pull_request_views(a.pull_requests@);
        let t = state::pull_request_views(b.pull_requests@);
        assert(like_candidate(s[i], t[i]));
        let branch = a.pull_requests@[i].pr.head_ref_name@;
        lemma_first_on_branch(a.attempts@, b.attempts@, branch, 0);
        if let Some(k) = state::first_on_branch(a.attempts@, branch, 0) {
            assert(like_attempt(a.attempts@[k], b.attempts@[k]));
        }
    }
}

proof fn lemma_accepted_metrics(a: Seq<ThesisState>, b: Seq<ThesisState>)
    requires
        like_theses(a, b),
    ensures
        ({
            let m = state::accepted_metrics(a);
            let n = state::accepted_metrics(b);
            m.len() == n.len() && forall|i: int|
                0 <= i < m.len() ==> (#[trigger] m[i])@ == (#[trigger] n[i])@
        }),
    decreases a.len(),
{
    if a.len() > 0 {
        lemma_theses_drop_last(a, b);
        lemma_accepted_metrics(a.drop_last(), b.drop_last());
        lemma_accepted(a.last(), b.last());
    }
}

proof fn lemma_decision_events(a: Seq<PullRequestState>, b: Seq<PullRequestState>)
    requires
        like_candidates(state::pull_request_views(a), state::pull_request_views(b)),
    ensures
        ThesisState::decision_events(a) == ThesisState::decision_events(b),
    decreases a.len(),
{
    let (s, t) = (state::pull_request_views(a), state::pull_request_views(b));
    assert(s.len() == a.len() && t.len() == b.len());
    if a.len() > 0 {
        let n = a.len() - 1;
        assert(like_candidate(s[n], t[n]));
        let u = state::pull_request_views(a.drop_last());
        let v = state::pull_request_views(b.drop_last());
        assert forall|i: int| 0 <= i < u.len() implies like_candidate(
            #[trigger] u[i],
            #[trigger] v[i],
        ) by {
            assert(u[i] == s[i] && v[i] == t[i]);
        }
        lemma_decision_events(a.drop_last(), b.drop_last());
    }
}

proof fn lemma_events(a: ThesisState, b: ThesisState)
    requires
        like_thesis(a, b),
    ensures
        a.events() == b.events(),
{
    let (m, n) = (a.claim_events(a.active_claims@), b.claim_events(b.active_claims@));
    assert forall|i: int| 0 <= i < m.len() implies #[trigger] m[i] == n[i] by {
        assert(like_claim(a.active_claims@[i], b.active_claims@[i]));
    }
    assert(m =~= n);
    let (m, n) = (a.release_events(a.releases@), b.release_events(b.releases@));
    assert forall|i: int| 0 <= i < m.len() implies #[trigger] m[i] == n[i] by {
        assert(like_release(a.releases@[i], b.releases@[i]));
    }
    assert(m =~= n);
    let (m, n) = (a.attempt_events(a.attempts@), b.attempt_events(b.attempts@));
    assert forall|i: int| 0 <= i < m.len() implies #[trigger] m[i] == n[i] by {
        assert(like_attempt(a.attempts@[i], b.attempts@[i]));
        assert(a.attempts@[i].metric@.text == b.attempts@[i].metric@.text);
    }
    assert(m =~= n);
    lemma_decision_events(a.pull_requests@, b.pull_requests@);
}

proof fn lemma_all_events(a: Seq<ThesisState>, b: Seq<ThesisState>)
    requires
        like_theses(a, b),
    ensures
        state::all_events(a) == state::all_events(b),
    decreases a.len(),
{
    if a.len() > 0 {
        lemma_theses_drop_last(a, b);
        lemma_all_events(a.drop_last(), b.drop_last());
        lemma_events(a.last(), b.last());
    }
}

proof fn lemma_finding_sum(a: Seq<AuditFinding>, b: Seq<AuditFinding>)
    ensures
        validation::finding_views(a + b) == validation::finding_views(a)
            + validation::finding_views(b),
{
    assert(validation::finding_views(a + b) =~= validation::finding_views(a)
        + validation::finding_views(b));
}

proof fn lemma_thesis_findings(a: Seq<ThesisState>, b: Seq<ThesisState>)
    requires
        like_theses(a, b),
    ensures
        validation::finding_views(state::thesis_findings(a)) == validation::finding_views(
            state::thesis_findings(b),
        ),
    decreases a.len(),
{
    if a.len() > 0 {
        lemma_theses_drop_last(a, b);
        lemma_thesis_findings(a.drop_last(), b.drop_last());
        lemma_finding_sum(state::thesis_findings(a.drop_last()), a.last().findings@);
        lemma_finding_sum(state::thesis_findings(b.drop_last()), b.last().findings@);
    }
}

proof fn lemma_candidate_findings(a: Seq<PullRequestState>, b: Seq<PullRequestState>)
    requires
        like_candidates(state::pull_request_views(a), state::pull_request_views(b)),
    ensures
        validation::finding_views(state::candidate_findings(a)) == validation::finding_views(
            state::candidate_findings(b),
        ),
    decreases a.len(),
{
    let (s, t) = (state::pull_request_views(a), state::pull_request_views(b));
    assert(s.len() == a.len() && t.len() == b.len());
    if a.len() > 0 {
        let n = a.len() - 1;
        assert(like_candidate(s[n], t[n]));
        let u = state::pull_request_views(a.drop_last());
        let v = state::pull_request_views(b.drop_last());
        assert forall|i: int| 0 <= i < u.len() implies like_candidate(
            #[trigger] u[i],
            #[trigger] v[i],
        ) by {
            assert(u[i] == s[i] && v[i] == t[i]);
        }
        lemma_candidate_findings(a.drop_last(), b.drop_last());
        lemma_finding_sum(state::candidate_findings(a.drop_last()), a.last().findings@);
        lemma_finding_sum(state::candidate_findings(b.drop_last()), b.last().findings@);
    }
}

proof fn lemma_sorted_findings(a: Seq<AuditFinding>, b: Seq<AuditFinding>)
    requires
        validation::finding_views(a) == validation::finding_views(b),
    ensures
        validation::finding_views(sort::sorted(a)) == validation::finding_views(sort::sorted(b)),
{
    let alike = |f: AuditFinding, g: AuditFinding| f@ == g@;
    let (u, v) = (validation::finding_views(a), validation::finding_views(b));
    assert(u.len() == a.len() && v.len() == b.len());
    assert forall|i: int| 0 <= i < a.len() implies alike(#[trigger] a[i], #[trigger] b[i]) by {
        assert(u[i] == a[i]@ && v[i] == b[i]@);
    }
    assert forall|s: AuditFinding, t: AuditFinding, x: AuditFinding, y: AuditFinding| #[trigger]
        alike(s, x) && #[trigger] alike(t, y) implies sort::Ranked::after(s, t)
        == sort::Ranked::after(x, y) by {
        assert(s@.created_at == x@.created_at && s@.message == x@.message);
        assert(t@.created_at == y@.created_at && t@.message == y@.message);
    }
    sort::sorted_alike(a, b, alike);
    let (s, t) = (sort::sorted(a), sort::sorted(b));
    assert forall|i: int| 0 <= i < s.len() implies (#[trigger] s[i])@ == t[i]@ by {
        assert(alike(s[i], t[i]));
    }
    assert(validation::finding_views(s) =~= validation::finding_views(t));
}

proof fn lemma_sorted_events(a: Seq<ActivityEvent>, b: Seq<ActivityEvent>)
    requires
        state::event_views(a) == state::event_views(b),
    ensures
        state::event_views(state::latest_events(sort::sorted(a))) == state::event_views(
            state::latest_events(sort::sorted(b)),
        ),
{
    let alike = |f: ActivityEvent, g: ActivityEvent| f@ == g@;
    let (u, v) = (state::event_views(a), state::event_views(b));
    assert(u.len() == a.len() && v.len() == b.len());
    assert forall|i: int| 0 <= i < a.len() implies alike(#[trigger] a[i], #[trigger] b[i]) by {
        assert(u[i] == a[i]@ && v[i] == b[i]@);
    }
    assert forall|s: ActivityEvent, t: ActivityEvent, x: ActivityEvent, y: ActivityEvent| #[trigger]
        alike(s, x) && #[trigger] alike(t, y) implies sort::Ranked::after(s, t)
        == sort::Ranked::after(x, y) by {
        assert(s@.created_at == x@.created_at && t@.created_at == y@.created_at);
    }
    sort::sorted_alike(a, b, alike);
    let (s, t) = (state::latest_events(sort::sorted(a)), state::latest_events(sort::sorted(b)));
    assert forall|i: int| 0 <= i < s.len() implies (#[trigger] s[i])@ == t[i]@ by {
        assert(alike(sort::sorted(a)[i], sort::sorted(b)[i]));
    }
    assert(state::event_views(s) =~= state::event_views(t));
}

proof fn lemma_sorted_theses(a: Seq<ThesisState>, b: Seq<ThesisState>)
    requires
        like_theses(a, b),
    ensures
        like_theses(sort::sorted(a), sort::sorted(b)),
{
    let alike = |f: ThesisState, g: ThesisState| like_thesis(f, g);
    assert forall|i: int| 0 <= i < a.len() implies alike(#[trigger] a[i], #[trigger] b[i]) by {
        assert(like_thesis(a[i], b[i]));
    }
    assert forall|s: ThesisState, t: ThesisState, x: ThesisState, y: ThesisState| #[trigger]
        alike(s, x) && #[trigger] alike(t, y) implies sort::Ranked::after(s, t)
        == sort::Ranked::after(x, y) by {
        assert(s.issue.number == x.issue.number && t.issue.number == y.issue.number);
    }
    sort::sorted_alike(a, b, alike);
    let (s, t) = (sort::sorted(a), sort::sorted(b));
    assert forall|i: int| 0 <= i < s.len() implies like_thesis(#[trigger] s[i], #[trigger] t[i]) by {
        assert(alike(s[i], t[i]));
    }
}

/// Labels do not matter: two states of a project that come from the same candidates and comments,
/// and from issues that differ in their labels at most, hold the same but for these labels.
pub proof fn labels_do_not_matter(
    a: RepositoryState,
    b: RepositoryState,
    issues: Seq<Issue>,
    others: Seq<Issue>,
    prs: Seq<PullRequest>,
    issue_comments: Map<u64, Vec<IssueComment>>,
    pr_comments: Map<u64, Vec<IssueComment>>,
    config: ProtocolConfig,
    now: Timestamp,
)
    requires
        issues.len() == others.len(),
        forall|i: int|
            0 <= i < issues.len() ==> same_but_labels(#[trigger] issues[i], #[trigger] others[i]),
        a.derived(issues, prs, issue_comments, pr_comments, config, now),
        b.derived(others, prs, issue_comments, pr_comments, config, now),
    ensures
        like_repository(a, b),
{
    let (f, s) = choose|f: Seq<PullRequestState>, s: Seq<ThesisState>|
        {
            &&& #[trigger] a.gathers(f, s, config)
            &&& f.len() == prs.len()
            &&& s.len() == issues.len()
            &&& forall|i: int|
                0 <= i < prs.len() ==> (#[trigger] f[i]).derived(
                    prs[i],
                    state::fetched(state::pr_numbers(prs), i, pr_comments),
                    config,
                )
            &&& forall|i: int|
                0 <= i < issues.len() ==> (#[trigger] s[i]).derived(
                    issues[i],
                    state::fetched(state::issue_numbers(issues), i, issue_comments),
                    state::pull_request_views(f),
                    config,
                    now,
                )
        };
    let (g, t) = choose|g: Seq<PullRequestState>, t: Seq<ThesisState>|
        {
            &&& #[trigger] b.gathers(g, t, config)
            &&& g.len() == prs.len()
            &&& t.len() == others.len()
            &&& forall|i: int|
                0 <= i < prs.len() ==> (#[trigger] g[i]).derived(
                    prs[i],
                    state::fetched(state::pr_numbers(prs), i, pr_comments),
                    config,
                )
            &&& forall|i: int|
                0 <= i < others.len() ==> (#[trigger] t[i]).derived(
                    others[i],
                    state::fetched(state::issue_numbers(others), i, issue_comments),
                    state::pull_request_views(g),
                    config,
                    now,
                )
        };
    let (u, v) = (state::pull_request_views(f), state::pull_request_views(g));
    assert forall|i: int| 0 <= i < u.len() implies like_candidate(#[trigger] u[i], #[trigger] v[i]) by {
        candidates_come_from_comments(
            f[i],
            g[i],
            prs[i],
            state::fetched(state::pr_numbers(prs), i, pr_comments),
            config,
        );
    }
    assert(state::issue_numbers(issues) =~= state::issue_numbers(others)) by {
        assert forall|i: int| 0 <= i < issues.len() implies state::issue_numbers(issues)[i]
            == state::issue_numbers(others)[i] by {
            assert(same_but_labels(issues[i], others[i]));
        }
    }
    assert forall|i: int| 0 <= i < s.len() implies like_thesis(#[trigger] s[i], #[trigger] t[i]) by {
        assert(same_but_labels(issues[i], others[i]));
        theses_come_from_comments(
            s[i],
            t[i],
            issues[i],
            others[i],
            state::fetched(state::issue_numbers(issues), i, issue_comments),
            u,
            v,
            config,
            now,
        );
    }
    lemma_sorted_theses(s, t);
    let (x, y) = (a.theses@, b.theses@);
    lemma_nodes_and_queue(x, y, config.auto_approve);
    lemma_accepted_metrics(x, y);
    lemma_best(state::accepted_metrics(x), state::accepted_metrics(y), config.metric_direction);
    lemma_thesis_findings(x, y);
    lemma_candidate_findings(f, g);
    lemma_finding_sum(state::candidate_findings(f), state::thesis_findings(x));
    lemma_finding_sum(state::candidate_findings(g), state::thesis_findings(y));
    lemma_sorted_findings(
        state::candidate_findings(f) + state::thesis_findings(x),
        state::candidate_findings(g) + state::thesis_findings(y),
    );
    lemma_all_events(x, y);
    let m = choose|m: Seq<ActivityEvent>|
        state::event_views(m) == state::all_events(x) && a.recent_events@ == state::latest_events(
            #[trigger] sort::sorted(m),
        );
    let n = choose|n: Seq<ActivityEvent>|
        state::event_views(n) == state::all_events(y) && b.recent_events@ == state::latest_events(
            #[trigger] sort::sorted(n),
        );
    lemma_sorted_events(m, n);
}

} // verus!
