//! Which comments of the protocol count.
//!
//! The comments of an issue or a pull request are gone through in the order in which they were
//! posted. Each one either takes effect or becomes a finding, by what came before it.
use crate::comments;
use crate::comments::{Observation, Outcome, ProtocolComment, ReleaseReason};
use crate::config::ProtocolConfig;
use crate::github::{Issue, IssueComment, PullRequest};
use crate::metric::Metric;
use crate::sort;
use crate::sort::Ranked;
use crate::state;
use crate::text;
use crate::text_set;
use crate::time;
use crate::time::Timestamp;
use vstd::prelude::*;
use vstd::string::*;

verus! {

/// How much a finding weighs.
#[derive(Clone, Copy, Debug, PartialEq, Eq, Structural)]
pub enum AuditSeverity {
    Invalid,
    Suspicious,
    Info,
}

/// What a finding is about.
#[derive(Clone, Copy, Debug, PartialEq, Eq, Structural)]
pub enum AuditScope {
    Issue { number: u64 },
    PullRequest { number: u64 },
    Repository,
}

/// Something that is not as the protocol wants it.
#[derive(Debug)]
pub struct AuditFinding {
    pub scope: AuditScope,
    pub severity: AuditSeverity,
    pub message: String,
    pub comment_id: Option<u64>,
    pub author: Option<String>,
    pub created_at: Option<Timestamp>,
}

impl Clone for AuditFinding {
    fn clone(&self) -> (r: Self)
        ensures
            r == *self,
    {
        AuditFinding {
            scope: self.scope,
            severity: self.severity,
            message: self.message.clone(),
            comment_id: self.comment_id,
            author: text::copy(&self.author),
            created_at: self.created_at,
        }
    }
}

/// The contents of a finding.
pub struct FindingView {
    pub scope: AuditScope,
    pub severity: AuditSeverity,
    pub message: Seq<char>,
    pub comment_id: Option<u64>,
    pub author: Option<Seq<char>>,
    pub created_at: Option<Timestamp>,
}

impl View for AuditFinding {
    type V = FindingView;

    open spec fn view(&self) -> FindingView {
        FindingView {
            scope: self.scope,
            severity: self.severity,
            message: self.message@,
            comment_id: self.comment_id,
            author: comments::option_text(self.author),
            created_at: self.created_at,
        }
    }
}

/// The contents of a list of findings.
pub open spec fn finding_views(v: Seq<AuditFinding>) -> Seq<FindingView> {
    v.map_values(|f: AuditFinding| f@)
}

/// A comment with its place in the discussion.
#[derive(Debug)]
pub struct ProtocolEnvelope {
    pub id: u64,
    pub author: String,
    pub created_at: Timestamp,
    pub protocol: Option<ProtocolComment>,
}

impl Ranked for ProtocolEnvelope {
    open spec fn after(self, other: Self) -> bool {
        other.created_at.earlier(self.created_at) || (self.created_at == other.created_at && self.id
            > other.id)
    }

    proof fn one_way(a: Self, b: Self) {
    }

    proof fn carries_over(a: Self, b: Self, c: Self) {
    }

    fn is_after(&self, other: &Self) -> (r: bool) {
        other.created_at.before(&self.created_at) || (self.created_at == other.created_at && self.id
            > other.id)
    }
}

/// A claim that counts.
#[derive(Debug)]
pub struct ValidClaimRecord {
    pub node: String,
    pub author_login: String,
    pub created_at: Timestamp,
    pub expired: bool,
}

/// A release that counts.
#[derive(Debug)]
pub struct ValidReleaseRecord {
    pub node: String,
    pub reason: ReleaseReason,
    pub created_at: Timestamp,
}

/// An attempt that counts.
#[derive(Debug)]
pub struct ValidAttemptRecord {
    pub thesis: u64,
    pub node: String,
    pub branch: String,
    pub metric: Metric,
    pub baseline_metric: Option<Metric>,
    pub observation: Observation,
    pub summary: String,
    pub author: String,
    pub created_at: Timestamp,
    pub comment_id: u64,
}

/// A claim to review that counts.
#[derive(Debug)]
pub struct ValidReviewClaimRecord {
    pub node: String,
    pub author_login: String,
    pub created_at: Timestamp,
}

/// A review that counts.
#[derive(Debug)]
pub struct ValidReviewRecord {
    pub node: String,
    pub metric: Metric,
    pub baseline_metric: Metric,
    pub observation: Observation,
    pub candidate_sha: String,
    pub base_sha: String,
    pub env_sha: Option<String>,
    pub timestamp: Timestamp,
    pub created_at: Timestamp,
}

/// A decision that counts.
#[derive(Debug)]
pub struct ValidDecisionRecord {
    pub outcome: Outcome,
    pub candidate_sha: String,
    pub confirmations: u64,
    pub created_at: Timestamp,
}

/// What counts in the discussion of a pull request.
#[derive(Debug)]
pub struct PullRequestValidation {
    pub thesis_number: Option<u64>,
    pub policy_pass: bool,
    pub maintainer_approved: bool,
    pub maintainer_rejected: bool,
    pub review_claims: Vec<ValidReviewClaimRecord>,
    pub reviews: Vec<ValidReviewRecord>,
    pub decision: Option<ValidDecisionRecord>,
    pub findings: Vec<AuditFinding>,
}

/// What counts in the discussion of an issue.
#[derive(Debug)]
pub struct IssueValidation {
    pub approved: bool,
    pub maintainer_approved: bool,
    pub maintainer_rejected: bool,
    pub active_claims: Vec<ValidClaimRecord>,
    pub releases: Vec<ValidReleaseRecord>,
    pub attempts: Vec<ValidAttemptRecord>,
    /// The branches of attempts that were acknowledged as invalid, in order and without repetition.
    pub invalidated_attempt_branches: Vec<String>,
    pub findings: Vec<AuditFinding>,
}

impl ProtocolEnvelope {
    /// A comment as the protocol sees it.
    pub fn from_issue_comment(comment: IssueComment) -> (r: Result<Self, String>)
        ensures
            r matches Ok(e) && e.id == comment.id && e.author == comment.user.login && e.created_at
                == comment.created_at && (match e.protocol {
                Some(c) => comments::parsed(comment.body@, comment.readings@) == Some(c@),
                None => comments::parsed(comment.body@, comment.readings@) is None,
            }),
    {
        match ProtocolComment::parse(comment.body.as_str(), comment.readings) {
            Ok(protocol) => Ok(
                ProtocolEnvelope {
                    id: comment.id,
                    author: comment.user.login,
                    created_at: comment.created_at,
                    protocol,
                },
            ),
            Err(e) => Err(e),
        }
    }
}

/// The author leads the project.
pub open spec fn is_lead(author: Seq<char>, config: ProtocolConfig) -> bool {
    config@.lead_github_login == Some(author)
}

/// The author maintains the project.
pub open spec fn is_maintainer(author: Seq<char>, config: ProtocolConfig) -> bool {
    config@.maintainer_github_login == Some(author)
}

fn is_lead_actor(author: &str, config: &ProtocolConfig) -> (r: bool)
    ensures
        r == is_lead(author@, *config),
{
    match &config.lead_github_login {
        Some(lead) => text::same(lead.as_str(), author),
        None => false,
    }
}

fn is_maintainer_actor(author: &str, config: &ProtocolConfig) -> (r: bool)
    ensures
        r == is_maintainer(author@, *config),
{
    match &config.maintainer_github_login {
        Some(maintainer) => text::same(maintainer.as_str(), author),
        None => false,
    }
}

/// A finding about a comment.
pub open spec fn finding(
    scope: AuditScope,
    severity: AuditSeverity,
    c: ProtocolEnvelope,
    message: Seq<char>,
) -> FindingView {
    FindingView {
        scope,
        severity,
        message,
        comment_id: Some(c.id),
        author: Some(c.author@),
        created_at: Some(c.created_at),
    }
}

fn make_finding(
    scope: AuditScope,
    severity: AuditSeverity,
    comment: &ProtocolEnvelope,
    message: &str,
) -> (r: AuditFinding)
    ensures
        r@ == finding(scope, severity, *comment, message@),
{
    AuditFinding {
        scope,
        severity,
        message: message.to_owned(),
        comment_id: Some(comment.id),
        author: Some(comment.author.clone()),
        created_at: Some(comment.created_at),
    }
}

/// The findings that nobody has acknowledged.
pub open spec fn unacknowledged(findings: Seq<FindingView>, acknowledged: Seq<u64>) -> Seq<
    FindingView,
>
    decreases findings.len(),
{
    if findings.len() == 0 {
        findings
    } else {
        let rest = unacknowledged(findings.drop_last(), acknowledged);
        match findings.last().comment_id {
            Some(id) => if acknowledged.contains(id) {
                rest
            } else {
                rest.push(findings.last())
            },
            None => rest.push(findings.last()),
        }
    }
}

fn holds_id(ids: &Vec<u64>, id: u64) -> (r: bool)
    ensures
        r == ids@.contains(id),
{
    let mut i: usize = 0;
    while i < ids.len()
        invariant
            i <= ids.len(),
            forall|j: int| 0 <= j < i ==> ids@[j] != id,
        decreases ids.len() - i,
    {
        if ids[i] == id {
            assert(ids@[i as int] == id);
            return true;
        }
        i = i + 1;
    }
    false
}

fn drop_acknowledged(findings: &Vec<AuditFinding>, acknowledged: &Vec<u64>) -> (r: Vec<
    AuditFinding,
>)
    ensures
        finding_views(r@) == unacknowledged(finding_views(findings@), acknowledged@),
{
    let ghost all = finding_views(findings@);
    let mut r: Vec<AuditFinding> = Vec::new();
    let mut i: usize = 0;
    assert(all.take(0) =~= Seq::<FindingView>::empty());
    assert(finding_views(r@) =~= Seq::<FindingView>::empty());
    while i < findings.len()
        invariant
            i <= findings.len(),
            all == finding_views(findings@),
            finding_views(r@) == unacknowledged(all.take(i as int), acknowledged@),
        decreases findings.len() - i,
    {
        let ghost before = r@;
        proof {
            assert(all.take(i + 1).drop_last() =~= all.take(i as int));
            assert(all.take(i + 1).last() == findings@[i as int]@);
        }
        let keep = match findings[i].comment_id {
            Some(id) => !holds_id(acknowledged, id),
            None => true,
        };
        if keep {
            r.push(findings[i].clone());
            assert(finding_views(r@) =~= finding_views(before).push(findings@[i as int]@));
        }
        i = i + 1;
    }
    assert(all.take(i as int) =~= all);
    r
}

/// What the discussion of a pull request has come to.
pub struct PullRequestProgress {
    pub policy_pass: bool,
    pub maintainer_approved: bool,
    pub maintainer_rejected: bool,
    pub review_claims: Seq<ValidReviewClaimRecord>,
    pub reviews: Seq<ValidReviewRecord>,
    pub decision: Option<ValidDecisionRecord>,
    pub findings: Seq<FindingView>,
    pub acknowledged: Seq<u64>,
}

/// A node has claimed the review.
pub open spec fn review_claimed(claims: Seq<ValidReviewClaimRecord>, node: Seq<char>) -> bool {
    exists|i: int| 0 <= i < claims.len() && (#[trigger] claims[i]).node@ == node
}

/// A node has claimed the review through this author.
pub open spec fn review_claimed_by(
    claims: Seq<ValidReviewClaimRecord>,
    node: Seq<char>,
    author: Seq<char>,
) -> bool {
    exists|i: int|
        0 <= i < claims.len() && (#[trigger] claims[i]).node@ == node && claims[i].author_login@
            == author
}

/// A node has reviewed.
pub open spec fn reviewed(reviews: Seq<ValidReviewRecord>, node: Seq<char>) -> bool {
    exists|i: int| 0 <= i < reviews.len() && (#[trigger] reviews[i]).node@ == node
}

/// The pull request was opened by this author.
pub open spec fn opened_by(pr: PullRequest, author: Seq<char>) -> bool {
    pr.author matches Some(a) && a.login@ == author
}

impl PullRequestProgress {
    /// Where a discussion starts.
    pub open spec fn start() -> Self {
        PullRequestProgress {
            policy_pass: false,
            maintainer_approved: false,
            maintainer_rejected: false,
            review_claims: Seq::empty(),
            reviews: Seq::empty(),
            decision: None,
            findings: Seq::empty(),
            acknowledged: Seq::empty(),
        }
    }

    /// With a finding that something does not count.
    pub open spec fn invalid(self, pr: PullRequest, c: ProtocolEnvelope, message: Seq<char>) -> Self {
        PullRequestProgress {
            findings: self.findings.push(
                finding(
                    AuditScope::PullRequest { number: pr.number },
                    AuditSeverity::Invalid,
                    c,
                    message,
                ),
            ),
            ..self
        }
    }

    /// With a finding that something is odd.
    pub open spec fn suspicious(
        self,
        pr: PullRequest,
        c: ProtocolEnvelope,
        message: Seq<char>,
    ) -> Self {
        PullRequestProgress {
            findings: self.findings.push(
                finding(
                    AuditScope::PullRequest { number: pr.number },
                    AuditSeverity::Suspicious,
                    c,
                    message,
                ),
            ),
            ..self
        }
    }

    /// What a repair note makes of the discussion.
    pub open spec fn on_note(
        self,
        pr: PullRequest,
        c: ProtocolEnvelope,
        config: ProtocolConfig,
        action: Seq<char>,
        related_comment_id: Option<u64>,
    ) -> Self {
        if !is_lead(c.author@, config) {
            self.invalid(pr, c, "admin repair note from non-lead actor"@)
        } else if action == "acknowledge_invalid"@ && related_comment_id is Some {
            PullRequestProgress {
                acknowledged: self.acknowledged.push(related_comment_id->Some_0),
                ..self
            }
        } else {
            self
        }
    }

    /// What the maintainer's word makes of the discussion.
    pub open spec fn on_command(
        self,
        c: ProtocolEnvelope,
        config: ProtocolConfig,
        approve: bool,
    ) -> Self {
        if is_maintainer(c.author@, config) {
            PullRequestProgress {
                maintainer_approved: approve,
                maintainer_rejected: !approve,
                ..self
            }
        } else {
            self
        }
    }

    /// What a policy pass makes of the discussion.
    pub open spec fn on_policy_pass(
        self,
        pr: PullRequest,
        c: ProtocolEnvelope,
        config: ProtocolConfig,
        thesis: u64,
    ) -> Self {
        if !is_lead(c.author@, config) {
            self.invalid(pr, c, "policy-pass comment from non-lead actor"@)
        } else if state::thesis_of_branch(pr.head_ref_name@) != Some(thesis) {
            self.invalid(pr, c, "policy-pass thesis number does not match PR branch"@)
        } else if self.decision is Some {
            self.invalid(pr, c, "policy-pass comment posted after a decision already exists"@)
        } else if self.policy_pass {
            self.suspicious(pr, c, "duplicate policy-pass comment"@)
        } else {
            PullRequestProgress { policy_pass: true, ..self }
        }
    }

    /// What a claim to review makes of the discussion.
    pub open spec fn on_review_claim(
        self,
        pr: PullRequest,
        c: ProtocolEnvelope,
        node: String,
    ) -> Self {
        if self.decision is Some {
            self.invalid(pr, c, "review-claim comment posted after the PR was already decided"@)
        } else if opened_by(pr, c.author@) {
            self.invalid(pr, c, "PR author cannot review-claim their own PR"@)
        } else if review_claimed(self.review_claims, node@) {
            self.suspicious(pr, c, "duplicate review-claim for the same node"@)
        } else {
            PullRequestProgress {
                review_claims: self.review_claims.push(
                    ValidReviewClaimRecord {
                        node,
                        author_login: c.author,
                        created_at: c.created_at,
                    },
                ),
                ..self
            }
        }
    }

    /// What a review makes of the discussion.
    pub open spec fn on_review(
        self,
        pr: PullRequest,
        c: ProtocolEnvelope,
        review: ValidReviewRecord,
    ) -> Self {
        if self.decision is Some {
            self.invalid(pr, c, "review comment posted after the PR was already decided"@)
        } else if opened_by(pr, c.author@) {
            self.invalid(pr, c, "PR author cannot review their own PR"@)
        } else if !review_claimed(self.review_claims, review.node@) {
            self.invalid(pr, c, "review comment without a preceding valid review-claim"@)
        } else if !review_claimed_by(self.review_claims, review.node@, c.author@) {
            self.invalid(
                pr,
                c,
                "review comment author does not match the valid review-claim owner"@,
            )
        } else if reviewed(self.reviews, review.node@) {
            self.suspicious(pr, c, "duplicate review from the same node"@)
        } else {
            PullRequestProgress { reviews: self.reviews.push(review), ..self }
        }
    }

    /// What a decision makes of the discussion.
    pub open spec fn on_decision(
        self,
        pr: PullRequest,
        c: ProtocolEnvelope,
        config: ProtocolConfig,
        decision: ValidDecisionRecord,
    ) -> Self {
        if !is_lead(c.author@, config) {
            self.invalid(pr, c, "decision comment from non-lead actor"@)
        } else if !self.policy_pass {
            self.invalid(pr, c, "decision comment posted before a valid policy-pass"@)
        } else if self.decision is Some {
            self.suspicious(pr, c, "duplicate decision comment"@)
        } else {
            PullRequestProgress { decision: Some(decision), ..self }
        }
    }

    /// What one more comment makes of the discussion.
    pub open spec fn step(
        self,
        pr: PullRequest,
        c: ProtocolEnvelope,
        config: ProtocolConfig,
    ) -> Self {
        match c.protocol {
            Some(ProtocolComment::AdminNote { action, related_comment_id, .. }) => self.on_note(
                pr,
                c,
                config,
                action@,
                related_comment_id,
            ),
            Some(ProtocolComment::SlashApprove { .. }) => self.on_command(c, config, true),
            Some(ProtocolComment::SlashReject { .. }) => self.on_command(c, config, false),
            Some(ProtocolComment::PolicyPass { thesis, .. }) => self.on_policy_pass(
                pr,
                c,
                config,
                thesis,
            ),
            Some(ProtocolComment::ReviewClaim { node, .. }) => self.on_review_claim(pr, c, node),
            Some(
                ProtocolComment::Review {
                    candidate_sha,
                    base_sha,
                    node,
                    metric,
                    baseline_metric,
                    observation,
                    env_sha,
                    timestamp,
                    ..
                },
            ) => self.on_review(
                pr,
                c,
                ValidReviewRecord {
                    node,
                    metric,
                    baseline_metric,
                    observation,
                    candidate_sha,
                    base_sha,
                    env_sha,
                    timestamp,
                    created_at: c.created_at,
                },
            ),
            Some(ProtocolComment::Decision { candidate_sha, outcome, confirmations, .. }) =>
            self.on_decision(
                pr,
                c,
                config,
                ValidDecisionRecord {
                    outcome,
                    candidate_sha,
                    confirmations,
                    created_at: c.created_at,
                },
            ),
            _ => self,
        }
    }

    /// What comments, one after the other, make of the discussion.
    pub open spec fn after(
        pr: PullRequest,
        comments: Seq<ProtocolEnvelope>,
        config: ProtocolConfig,
    ) -> Self
        decreases comments.len(),
    {
        if comments.len() == 0 {
            Self::start()
        } else {
            Self::after(pr, comments.drop_last(), config).step(pr, comments.last(), config)
        }
    }
}

struct PullRequestTally {
    policy_pass: bool,
    maintainer_approved: bool,
    maintainer_rejected: bool,
    review_claims: Vec<ValidReviewClaimRecord>,
    reviews: Vec<ValidReviewRecord>,
    decision: Option<ValidDecisionRecord>,
    findings: Vec<AuditFinding>,
    acknowledged: Vec<u64>,
}

impl View for PullRequestTally {
    type V = PullRequestProgress;

    closed spec fn view(&self) -> PullRequestProgress {
        PullRequestProgress {
            policy_pass: self.policy_pass,
            maintainer_approved: self.maintainer_approved,
            maintainer_rejected: self.maintainer_rejected,
            review_claims: self.review_claims@,
            reviews: self.reviews@,
            decision: self.decision,
            findings: finding_views(self.findings@),
            acknowledged: self.acknowledged@,
        }
    }
}

fn has_claim(claims: &Vec<ValidReviewClaimRecord>, node: &str) -> (r: bool)
    ensures
        r == review_claimed(claims@, node@),
{
    let mut i: usize = 0;
    while i < claims.len()
        invariant
            i <= claims.len(),
            forall|j: int| 0 <= j < i ==> (#[trigger] claims@[j]).node@ != node@,
        decreases claims.len() - i,
    {
        if text::same(claims[i].node.as_str(), node) {
            assert(claims@[i as int].node@ == node@);
            return true;
        }
        i = i + 1;
    }
    false
}

fn has_claim_by(claims: &Vec<ValidReviewClaimRecord>, node: &str, author: &str) -> (r: bool)
    ensures
        r == review_claimed_by(claims@, node@, author@),
{
    let mut i: usize = 0;
    while i < claims.len()
        invariant
            i <= claims.len(),
            forall|j: int|
                0 <= j < i ==> (#[trigger] claims@[j]).node@ != node@ || claims@[j].author_login@
                    != author@,
        decreases claims.len() - i,
    {
        if text::same(claims[i].node.as_str(), node) && text::same(
            claims[i].author_login.as_str(),
            author,
        ) {
            assert(claims@[i as int].node@ == node@);
            return true;
        }
        i = i + 1;
    }
    false
}

fn has_review(reviews: &Vec<ValidReviewRecord>, node: &str) -> (r: bool)
    ensures
        r == reviewed(reviews@, node@),
{
    let mut i: usize = 0;
    while i < reviews.len()
        invariant
            i <= reviews.len(),
            forall|j: int| 0 <= j < i ==> (#[trigger] reviews@[j]).node@ != node@,
        decreases reviews.len() - i,
    {
        if text::same(reviews[i].node.as_str(), node) {
            assert(reviews@[i as int].node@ == node@);
            return true;
        }
        i = i + 1;
    }
    false
}

fn is_opened_by(pr: &PullRequest, author: &str) -> (r: bool)
    ensures
        r == opened_by(*pr, author@),
{
    match &pr.author {
        Some(a) => text::same(a.login.as_str(), author),
        None => false,
    }
}

impl PullRequestTally {
    fn find(
        &mut self,
        pr: &PullRequest,
        severity: AuditSeverity,
        comment: &ProtocolEnvelope,
        message: &str,
    )
        ensures
            final(self)@ == (PullRequestProgress {
                findings: old(self)@.findings.push(
                    finding(
                        AuditScope::PullRequest { number: pr.number },
                        severity,
                        *comment,
                        message@,
                    ),
                ),
                ..old(self)@
            }),
    {
        let ghost before = self.findings@;
        self.findings.push(
            make_finding(
                AuditScope::PullRequest { number: pr.number },
                severity,
                comment,
                message,
            ),
        );
        assert(finding_views(self.findings@) =~= finding_views(before).push(
            self.findings@.last()@,
        ));
    }

    fn note(
        &mut self,
        pr: &PullRequest,
        comment: &ProtocolEnvelope,
        config: &ProtocolConfig,
        action: &str,
        related_comment_id: Option<u64>,
    )
        ensures
            final(self)@ == old(self)@.on_note(*pr, *comment, *config, action@, related_comment_id),
    {
        if !is_lead_actor(comment.author.as_str(), config) {
            self.find(
                pr,
                AuditSeverity::Invalid,
                comment,
                "admin repair note from non-lead actor",
            );
        } else if text::same(action, "acknowledge_invalid") {
            if let Some(id) = related_comment_id {
                self.acknowledged.push(id);
            }
        }
    }

    fn command(&mut self, comment: &ProtocolEnvelope, config: &ProtocolConfig, approve: bool)
        ensures
            final(self)@ == old(self)@.on_command(*comment, *config, approve),
    {
        if is_maintainer_actor(comment.author.as_str(), config) {
            self.maintainer_approved = approve;
            self.maintainer_rejected = !approve;
        }
    }

    fn pass(
        &mut self,
        pr: &PullRequest,
        comment: &ProtocolEnvelope,
        config: &ProtocolConfig,
        thesis: u64,
    )
        ensures
            final(self)@ == old(self)@.on_policy_pass(*pr, *comment, *config, thesis),
    {
        let mine = match state::parse_thesis_number_from_branch(pr.head_ref_name.as_str()) {
            Some(n) => n == thesis,
            None => false,
        };
        if !is_lead_actor(comment.author.as_str(), config) {
            self.find(
                pr,
                AuditSeverity::Invalid,
                comment,
                "policy-pass comment from non-lead actor",
            );
        } else if !mine {
            self.find(
                pr,
                AuditSeverity::Invalid,
                comment,
                "policy-pass thesis number does not match PR branch",
            );
        } else if self.decision.is_some() {
            self.find(
                pr,
                AuditSeverity::Invalid,
                comment,
                "policy-pass comment posted after a decision already exists",
            );
        } else if self.policy_pass {
            self.find(pr, AuditSeverity::Suspicious, comment, "duplicate policy-pass comment");
        } else {
            self.policy_pass = true;
        }
    }

    fn review_claim(&mut self, pr: &PullRequest, comment: &ProtocolEnvelope, node: &String)
        ensures
            final(self)@ == old(self)@.on_review_claim(*pr, *comment, *node),
    {
        if self.decision.is_some() {
            self.find(
                pr,
                AuditSeverity::Invalid,
                comment,
                "review-claim comment posted after the PR was already decided",
            );
        } else if is_opened_by(pr, comment.author.as_str()) {
            self.find(
                pr,
                AuditSeverity::Invalid,
                comment,
                "PR author cannot review-claim their own PR",
            );
        } else if has_claim(&self.review_claims, node.as_str()) {
            self.find(
                pr,
                AuditSeverity::Suspicious,
                comment,
                "duplicate review-claim for the same node",
            );
        } else {
            self.review_claims.push(
                ValidReviewClaimRecord {
                    node: node.clone(),
                    author_login: comment.author.clone(),
                    created_at: comment.created_at,
                },
            );
        }
    }

    fn review(&mut self, pr: &PullRequest, comment: &ProtocolEnvelope, review: ValidReviewRecord)
        ensures
            final(self)@ == old(self)@.on_review(*pr, *comment, review),
    {
        let author = comment.author.as_str();
        if self.decision.is_some() {
            self.find(
                pr,
                AuditSeverity::Invalid,
                comment,
                "review comment posted after the PR was already decided",
            );
        } else if is_opened_by(pr, author) {
            self.find(
                pr,
                AuditSeverity::Invalid,
                comment,
                "PR author cannot review their own PR",
            );
        } else if !has_claim(&self.review_claims, review.node.as_str()) {
            self.find(
                pr,
                AuditSeverity::Invalid,
                comment,
                "review comment without a preceding valid review-claim",
            );
        } else if !has_claim_by(&self.review_claims, review.node.as_str(), author) {
            self.find(
                pr,
                AuditSeverity::Invalid,
                comment,
                "review comment author does not match the valid review-claim owner",
            );
        } else if has_review(&self.reviews, review.node.as_str()) {
            self.find(
                pr,
                AuditSeverity::Suspicious,
                comment,
                "duplicate review from the same node",
            );
        } else {
            self.reviews.push(review);
        }
    }

    fn decide(
        &mut self,
        pr: &PullRequest,
        comment: &ProtocolEnvelope,
        config: &ProtocolConfig,
        decision: ValidDecisionRecord,
    )
        ensures
            final(self)@ == old(self)@.on_decision(*pr, *comment, *config, decision),
    {
        if !is_lead_actor(comment.author.as_str(), config) {
            self.find(
                pr,
                AuditSeverity::Invalid,
                comment,
                "decision comment from non-lead actor",
            );
        } else if !self.policy_pass {
            self.find(
                pr,
                AuditSeverity::Invalid,
                comment,
                "decision comment posted before a valid policy-pass",
            );
        } else if self.decision.is_some() {
            self.find(pr, AuditSeverity::Suspicious, comment, "duplicate decision comment");
        } else {
            self.decision = Some(decision);
        }
    }

    fn apply(&mut self, pr: &PullRequest, comment: &ProtocolEnvelope, config: &ProtocolConfig)
        ensures
            final(self)@ == old(self)@.step(*pr, *comment, *config),
    {
        match &comment.protocol {
            Some(ProtocolComment::AdminNote { action, related_comment_id, .. }) => {
                self.note(pr, comment, config, action.as_str(), *related_comment_id);
            },
            Some(ProtocolComment::SlashApprove { .. }) => {
                self.command(comment, config, true);
            },
            Some(ProtocolComment::SlashReject { .. }) => {
                self.command(comment, config, false);
            },
            Some(ProtocolComment::PolicyPass { thesis, .. }) => {
                self.pass(pr, comment, config, *thesis);
            },
            Some(ProtocolComment::ReviewClaim { node, .. }) => {
                self.review_claim(pr, comment, node);
            },
            Some(
                ProtocolComment::Review {
                    candidate_sha,
                    base_sha,
                    node,
                    metric,
                    baseline_metric,
                    observation,
                    env_sha,
                    timestamp,
                    ..
                },
            ) => {
                self.review(
                    pr,
                    comment,
                    ValidReviewRecord {
                        node: node.clone(),
                        metric: metric.clone(),
                        baseline_metric: baseline_metric.clone(),
                        observation: *observation,
                        candidate_sha: candidate_sha.clone(),
                        base_sha: base_sha.clone(),
                        env_sha: text::copy(env_sha),
                        timestamp: *timestamp,
                        created_at: comment.created_at,
                    },
                );
            },
            Some(ProtocolComment::Decision { candidate_sha, outcome, confirmations, .. }) => {
                self.decide(
                    pr,
                    comment,
                    config,
                    ValidDecisionRecord {
                        outcome: *outcome,
                        candidate_sha: candidate_sha.clone(),
                        confirmations: *confirmations,
                        created_at: comment.created_at,
                    },
                );
            },
            _ => {},
        }
    }
}

impl PullRequestValidation {
    /// What counts is what a discussion has come to, without the findings that were acknowledged.
    pub open spec fn is(&self, pr: PullRequest, p: PullRequestProgress) -> bool {
        &&& self.thesis_number == state::thesis_of_branch(pr.head_ref_name@)
        &&& self.policy_pass == p.policy_pass
        &&& self.maintainer_approved == p.maintainer_approved
        &&& self.maintainer_rejected == p.maintainer_rejected
        &&& self.review_claims@ == p.review_claims
        &&& self.reviews@ == p.reviews
        &&& self.decision == p.decision
        &&& finding_views(self.findings@) == unacknowledged(p.findings, p.acknowledged)
    }
}

/// Goes through the comments of a pull request in the order in which they were posted.
pub fn validate_pull_request(
    pr: &PullRequest,
    comments: Vec<ProtocolEnvelope>,
    config: &ProtocolConfig,
) -> (r: PullRequestValidation)
    ensures
        r.is(*pr, PullRequestProgress::after(*pr, sort::sorted(comments@), *config)),
{
    let sorted: Vec<ProtocolEnvelope> = sort::sort(comments);
    let mut tally = PullRequestTally {
        policy_pass: false,
        maintainer_approved: false,
        maintainer_rejected: false,
        review_claims: Vec::new(),
        reviews: Vec::new(),
        decision: None,
        findings: Vec::new(),
        acknowledged: Vec::new(),
    };
    let mut i: usize = 0;
    proof {
        assert(sorted@.take(0) =~= Seq::<ProtocolEnvelope>::empty());
        assert(finding_views(tally.findings@) =~= Seq::<FindingView>::empty());
    }
    while i < sorted.len()
        invariant
            i <= sorted.len(),
            tally@ == PullRequestProgress::after(*pr, sorted@.take(i as int), *config),
        decreases sorted.len() - i,
    {
        assert(sorted@.take(i + 1).drop_last() =~= sorted@.take(i as int));
        tally.apply(pr, &sorted[i], config);
        i = i + 1;
    }
    assert(sorted@.take(i as int) =~= sorted@);
    let findings: Vec<AuditFinding> = drop_acknowledged(&tally.findings, &tally.acknowledged);
    PullRequestValidation {
        thesis_number: state::parse_thesis_number_from_branch(pr.head_ref_name.as_str()),
        policy_pass: tally.policy_pass,
        maintainer_approved: tally.maintainer_approved,
        maintainer_rejected: tally.maintainer_rejected,
        review_claims: tally.review_claims,
        reviews: tally.reviews,
        decision: tally.decision,
        findings,
    }
}

/// What the discussion of an issue has come to.
pub struct IssueProgress {
    pub approved: bool,
    pub maintainer_approved: bool,
    pub maintainer_rejected: bool,
    pub claim: Option<ValidClaimRecord>,
    pub releases: Seq<ValidReleaseRecord>,
    pub attempts: Seq<ValidAttemptRecord>,
    pub findings: Seq<FindingView>,
    pub acknowledged: Seq<u64>,
}

/// What the discussion of an issue is held against.
pub struct IssueContext {
    pub issue: Issue,
    pub config: ProtocolConfig,
    pub latest_decision: Option<Timestamp>,
    pub now: Timestamp,
}

impl IssueContext {
    /// Nothing counts any more at this time: a candidate was decided before, or the issue was
    /// closed before.
    pub open spec fn terminal_at(self, t: Timestamp) -> bool {
        (self.latest_decision matches Some(d) && d.earlier(t)) || (self.issue.closed_at matches Some(
            closed,
        ) && self.issue.state@ == "CLOSED"@ && closed.earlier(t))
    }

    /// How the branches of attempts at this thesis start.
    pub open spec fn branch_start(self) -> Seq<char> {
        "thesis/"@ + text::decimal(self.issue.number as nat) + "-"@
    }
}

/// An attempt on this branch is recorded.
pub open spec fn branch_recorded(attempts: Seq<ValidAttemptRecord>, branch: Seq<char>) -> bool {
    exists|i: int| 0 <= i < attempts.len() && (#[trigger] attempts[i]).branch@ == branch
}

impl IssueProgress {
    /// Where a discussion starts.
    pub open spec fn start() -> Self {
        IssueProgress {
            approved: false,
            maintainer_approved: false,
            maintainer_rejected: false,
            claim: None,
            releases: Seq::empty(),
            attempts: Seq::empty(),
            findings: Seq::empty(),
            acknowledged: Seq::empty(),
        }
    }

    /// With a finding.
    pub open spec fn with_finding(
        self,
        x: IssueContext,
        severity: AuditSeverity,
        c: ProtocolEnvelope,
        message: Seq<char>,
    ) -> Self {
        IssueProgress {
            findings: self.findings.push(
                finding(AuditScope::Issue { number: x.issue.number }, severity, c, message),
            ),
            ..self
        }
    }

    /// With a finding that something does not count.
    pub open spec fn invalid(self, x: IssueContext, c: ProtocolEnvelope, message: Seq<char>) -> Self {
        self.with_finding(x, AuditSeverity::Invalid, c, message)
    }

    /// With a finding that something is odd.
    pub open spec fn suspicious(
        self,
        x: IssueContext,
        c: ProtocolEnvelope,
        message: Seq<char>,
    ) -> Self {
        self.with_finding(x, AuditSeverity::Suspicious, c, message)
    }

    /// What a repair note makes of the discussion.
    pub open spec fn on_note(
        self,
        x: IssueContext,
        c: ProtocolEnvelope,
        action: Seq<char>,
        related_comment_id: Option<u64>,
    ) -> Self {
        if !is_lead(c.author@, x.config) {
            self.invalid(x, c, "admin repair note from non-lead actor"@)
        } else if action == "acknowledge_invalid"@ && related_comment_id is Some {
            IssueProgress {
                acknowledged: self.acknowledged.push(related_comment_id->Some_0),
                ..self
            }
        } else {
            self
        }
    }

    /// What `/approve` makes of the discussion: it is the maintainer's word, and approves the
    /// thesis where theses are not approved by themselves.
    pub open spec fn on_approve(self, x: IssueContext, c: ProtocolEnvelope) -> Self {
        let heard = if is_maintainer(c.author@, x.config) {
            IssueProgress {
                approved: self.approved || !x.config.auto_approve,
                maintainer_approved: true,
                maintainer_rejected: false,
                ..self
            }
        } else {
            self
        };
        if is_maintainer(c.author@, x.config) && !x.config.auto_approve {
            heard
        } else {
            heard.suspicious(
                x,
                c,
                "manual `/approve` comment is non-canonical; use `polyresearch generate` or an admin command"@,
            )
        }
    }

    /// What `/reject` makes of the discussion: it is the maintainer's word.
    pub open spec fn on_reject(self, x: IssueContext, c: ProtocolEnvelope) -> Self {
        if is_maintainer(c.author@, x.config) {
            IssueProgress { maintainer_approved: false, maintainer_rejected: true, ..self }
        } else {
            self
        }
    }

    /// What an approval makes of the discussion.
    pub open spec fn on_approval(self, x: IssueContext, c: ProtocolEnvelope, thesis: u64) -> Self {
        if thesis != x.issue.number {
            self.invalid(x, c, "approval comment thesis number does not match the issue"@)
        } else if !is_lead(c.author@, x.config) {
            self.invalid(x, c, "approval comment from non-lead actor"@)
        } else if self.approved {
            self.suspicious(x, c, "duplicate approval comment"@)
        } else {
            IssueProgress { approved: true, ..self }
        }
    }

    /// What a claim makes of the discussion.
    pub open spec fn on_claim(
        self,
        x: IssueContext,
        c: ProtocolEnvelope,
        thesis: u64,
        node: String,
    ) -> Self {
        if thesis != x.issue.number {
            self.invalid(x, c, "claim comment thesis number does not match the issue"@)
        } else if !self.approved {
            self.invalid(x, c, "claim posted before a valid approval"@)
        } else if x.terminal_at(c.created_at) {
            self.invalid(x, c, "claim posted after the thesis was already closed or decided"@)
        } else if self.claim is Some {
            self.invalid(x, c, "claim posted while another valid claim was still active"@)
        } else {
            IssueProgress {
                claim: Some(
                    ValidClaimRecord {
                        node,
                        author_login: c.author,
                        created_at: c.created_at,
                        expired: c.created_at.over_by(
                            time::usable_span(x.config.assignment_timeout) as int,
                            x.now,
                        ),
                    },
                ),
                ..self
            }
        }
    }

    /// What a release makes of the discussion.
    pub open spec fn on_release(
        self,
        x: IssueContext,
        c: ProtocolEnvelope,
        thesis: u64,
        node: String,
        reason: ReleaseReason,
    ) -> Self {
        if thesis != x.issue.number {
            self.invalid(x, c, "release comment thesis number does not match the issue"@)
        } else if !(self.claim matches Some(held) && held.node@ == node@) {
            self.invalid(x, c, "release posted by a node that did not hold the active claim"@)
        } else if self.claim->Some_0.author_login@ == c.author@ || is_lead(c.author@, x.config) {
            IssueProgress {
                claim: None,
                releases: self.releases.push(
                    ValidReleaseRecord { node, reason, created_at: c.created_at },
                ),
                ..self
            }
        } else {
            self.invalid(x, c, "release author does not own the active canonical claim"@)
        }
    }

    /// What an attempt makes of the discussion.
    pub open spec fn on_attempt(
        self,
        x: IssueContext,
        c: ProtocolEnvelope,
        attempt: ValidAttemptRecord,
    ) -> Self {
        if attempt.thesis != x.issue.number {
            self.invalid(x, c, "attempt comment thesis number does not match the issue"@)
        } else if !self.approved {
            self.invalid(x, c, "attempt posted before a valid approval"@)
        } else if x.terminal_at(c.created_at) {
            self.invalid(x, c, "attempt posted after the thesis was already closed or decided"@)
        } else if self.claim is None {
            self.invalid(x, c, "attempt posted without any active canonical claim"@)
        } else if self.claim->Some_0.author_login@ != c.author@ {
            self.invalid(x, c, "attempt author does not match the active canonical claim owner"@)
        } else if !text::begins(attempt.branch@, x.branch_start()) {
            self.invalid(
                x,
                c,
                "attempt branch does not match the thesis branch naming convention"@,
            )
        } else if branch_recorded(self.attempts, attempt.branch@) {
            self.suspicious(x, c, "duplicate attempt branch recorded more than once"@)
        } else {
            IssueProgress {
                attempts: self.attempts.push(
                    ValidAttemptRecord { node: self.claim->Some_0.node, ..attempt },
                ),
                ..self
            }
        }
    }

    /// What one more comment makes of the discussion.
    pub open spec fn step(self, x: IssueContext, c: ProtocolEnvelope) -> Self {
        match c.protocol {
            Some(ProtocolComment::AdminNote { action, related_comment_id, .. }) => self.on_note(
                x,
                c,
                action@,
                related_comment_id,
            ),
            Some(ProtocolComment::SlashApprove { .. }) => self.on_approve(x, c),
            Some(ProtocolComment::SlashReject { .. }) => self.on_reject(x, c),
            Some(ProtocolComment::Approval { thesis }) => self.on_approval(x, c, thesis),
            Some(ProtocolComment::Claim { thesis, node }) => self.on_claim(x, c, thesis, node),
            Some(ProtocolComment::Release { thesis, node, reason }) => self.on_release(
                x,
                c,
                thesis,
                node,
                reason,
            ),
            Some(
                ProtocolComment::Attempt {
                    thesis,
                    branch,
                    metric,
                    baseline_metric,
                    observation,
                    summary,
                    ..
                },
            ) => self.on_attempt(
                x,
                c,
                ValidAttemptRecord {
                    thesis,
                    node: c.author,
                    branch,
                    metric,
                    baseline_metric,
                    observation,
                    summary,
                    author: c.author,
                    created_at: c.created_at,
                    comment_id: c.id,
                },
            ),
            _ => self,
        }
    }

    /// What comments, one after the other, make of the discussion.
    pub open spec fn after(x: IssueContext, comments: Seq<ProtocolEnvelope>) -> Self
        decreases comments.len(),
    {
        if comments.len() == 0 {
            Self::start()
        } else {
            Self::after(x, comments.drop_last()).step(x, comments.last())
        }
    }

    /// The branches of the recorded attempts that were acknowledged as invalid.
    pub open spec fn invalidated(attempts: Seq<ValidAttemptRecord>, acknowledged: Seq<u64>) -> Seq<
        Seq<char>,
    >
        decreases attempts.len(),
    {
        if attempts.len() == 0 {
            Seq::empty()
        } else {
            let rest = Self::invalidated(attempts.drop_last(), acknowledged);
            if acknowledged.contains(attempts.last().comment_id) {
                rest.push(attempts.last().branch@)
            } else {
                rest
            }
        }
    }
}

struct IssueTally {
    approved: bool,
    maintainer_approved: bool,
    maintainer_rejected: bool,
    claim: Option<ValidClaimRecord>,
    releases: Vec<ValidReleaseRecord>,
    attempts: Vec<ValidAttemptRecord>,
    findings: Vec<AuditFinding>,
    acknowledged: Vec<u64>,
}

impl View for IssueTally {
    type V = IssueProgress;

    closed spec fn view(&self) -> IssueProgress {
        IssueProgress {
            approved: self.approved,
            maintainer_approved: self.maintainer_approved,
            maintainer_rejected: self.maintainer_rejected,
            claim: self.claim,
            releases: self.releases@,
            attempts: self.attempts@,
            findings: finding_views(self.findings@),
            acknowledged: self.acknowledged@,
        }
    }
}

struct IssueRules<'a> {
    issue: &'a Issue,
    config: &'a ProtocolConfig,
    latest_decision: Option<Timestamp>,
    now: Timestamp,
}

impl<'a> View for IssueRules<'a> {
    type V = IssueContext;

    closed spec fn view(&self) -> IssueContext {
        IssueContext {
            issue: *self.issue,
            config: *self.config,
            latest_decision: self.latest_decision,
            now: self.now,
        }
    }
}

fn issue_is_terminal(x: &IssueRules, t: &Timestamp) -> (r: bool)
    ensures
        r == x@.terminal_at(*t),
{
    if let Some(d) = x.latest_decision {
        if d.before(t) {
            return true;
        }
    }
    match x.issue.closed_at {
        Some(closed) => text::same(x.issue.state.as_str(), "CLOSED") && closed.before(t),
        None => false,
    }
}

fn has_branch(attempts: &Vec<ValidAttemptRecord>, branch: &str) -> (r: bool)
    ensures
        r == branch_recorded(attempts@, branch@),
{
    let mut i: usize = 0;
    while i < attempts.len()
        invariant
            i <= attempts.len(),
            forall|j: int| 0 <= j < i ==> (#[trigger] attempts@[j]).branch@ != branch@,
        decreases attempts.len() - i,
    {
        if text::same(attempts[i].branch.as_str(), branch) {
            assert(attempts@[i as int].branch@ == branch@);
            return true;
        }
        i = i + 1;
    }
    false
}

impl IssueTally {
    fn find(
        &mut self,
        x: &IssueRules,
        severity: AuditSeverity,
        comment: &ProtocolEnvelope,
        message: &str,
    )
        ensures
            final(self)@ == old(self)@.with_finding(x@, severity, *comment, message@),
    {
        let ghost before = self.findings@;
        self.findings.push(
            make_finding(
                AuditScope::Issue { number: x.issue.number },
                severity,
                comment,
                message,
            ),
        );
        assert(finding_views(self.findings@) =~= finding_views(before).push(
            self.findings@.last()@,
        ));
    }

    fn invalid(&mut self, x: &IssueRules, comment: &ProtocolEnvelope, message: &str)
        ensures
            final(self)@ == old(self)@.invalid(x@, *comment, message@),
    {
        self.find(x, AuditSeverity::Invalid, comment, message);
    }

    fn suspicious(&mut self, x: &IssueRules, comment: &ProtocolEnvelope, message: &str)
        ensures
            final(self)@ == old(self)@.suspicious(x@, *comment, message@),
    {
        self.find(x, AuditSeverity::Suspicious, comment, message);
    }

    fn note(
        &mut self,
        x: &IssueRules,
        comment: &ProtocolEnvelope,
        action: &str,
        related_comment_id: Option<u64>,
    )
        ensures
            final(self)@ == old(self)@.on_note(x@, *comment, action@, related_comment_id),
    {
        if !is_lead_actor(comment.author.as_str(), x.config) {
            self.invalid(x, comment, "admin repair note from non-lead actor");
        } else if text::same(action, "acknowledge_invalid") {
            if let Some(id) = related_comment_id {
                self.acknowledged.push(id);
            }
        }
    }

    fn approve(&mut self, x: &IssueRules, comment: &ProtocolEnvelope)
        ensures
            final(self)@ == old(self)@.on_approve(x@, *comment),
    {
        let maintainer = is_maintainer_actor(comment.author.as_str(), x.config);
        if maintainer {
            self.approved = self.approved || !x.config.auto_approve;
            self.maintainer_approved = true;
            self.maintainer_rejected = false;
        }
        if !(maintainer && !x.config.auto_approve) {
            self.suspicious(
                x,
                comment,
                "manual `/approve` comment is non-canonical; use `polyresearch generate` or an admin command",
            );
        }
    }

    fn reject(&mut self, x: &IssueRules, comment: &ProtocolEnvelope)
        ensures
            final(self)@ == old(self)@.on_reject(x@, *comment),
    {
        if is_maintainer_actor(comment.author.as_str(), x.config) {
            self.maintainer_approved = false;
            self.maintainer_rejected = true;
        }
    }

    fn approval(&mut self, x: &IssueRules, comment: &ProtocolEnvelope, thesis: u64)
        ensures
            final(self)@ == old(self)@.on_approval(x@, *comment, thesis),
    {
        if thesis != x.issue.number {
            self.invalid(x, comment, "approval comment thesis number does not match the issue");
        } else if !is_lead_actor(comment.author.as_str(), x.config) {
            self.invalid(x, comment, "approval comment from non-lead actor");
        } else if self.approved {
            self.suspicious(x, comment, "duplicate approval comment");
        } else {
            self.approved = true;
        }
    }

    fn claim(&mut self, x: &IssueRules, comment: &ProtocolEnvelope, thesis: u64, node: &String)
        ensures
            final(self)@ == old(self)@.on_claim(x@, *comment, thesis, *node),
    {
        if thesis != x.issue.number {
            self.invalid(x, comment, "claim comment thesis number does not match the issue");
        } else if !self.approved {
            self.invalid(x, comment, "claim posted before a valid approval");
        } else if issue_is_terminal(x, &comment.created_at) {
            self.invalid(
                x,
                comment,
                "claim posted after the thesis was already closed or decided",
            );
        } else if self.claim.is_some() {
            self.invalid(
                x,
                comment,
                "claim posted while another valid claim was still active",
            );
        } else {
            let span: u64 = if x.config.assignment_timeout > time::LONGEST_SPAN {
                0
            } else {
                x.config.assignment_timeout
            };
            self.claim = Some(
                ValidClaimRecord {
                    node: node.clone(),
                    author_login: comment.author.clone(),
                    created_at: comment.created_at,
                    expired: comment.created_at.expired(span, &x.now),
                },
            );
        }
    }

    fn release(
        &mut self,
        x: &IssueRules,
        comment: &ProtocolEnvelope,
        thesis: u64,
        node: &String,
        reason: ReleaseReason,
    )
        ensures
            final(self)@ == old(self)@.on_release(x@, *comment, thesis, *node, reason),
    {
        if thesis != x.issue.number {
            self.invalid(x, comment, "release comment thesis number does not match the issue");
            return;
        }
        let (held, owned) = match &self.claim {
            Some(c) => (
                text::same(c.node.as_str(), node.as_str()),
                text::same(c.author_login.as_str(), comment.author.as_str()),
            ),
            None => (false, false),
        };
        if !held {
            self.invalid(
                x,
                comment,
                "release posted by a node that did not hold the active claim",
            );
        } else if owned || is_lead_actor(comment.author.as_str(), x.config) {
            self.claim = None;
            self.releases.push(
                ValidReleaseRecord {
                    node: node.clone(),
                    reason,
                    created_at: comment.created_at,
                },
            );
        } else {
            self.invalid(
                x,
                comment,
                "release author does not own the active canonical claim",
            );
        }
    }

    fn attempt(&mut self, x: &IssueRules, comment: &ProtocolEnvelope, attempt: ValidAttemptRecord)
        ensures
            final(self)@ == old(self)@.on_attempt(x@, *comment, attempt),
    {
        let mut start = "thesis/".to_owned();
        start.append(text::number(x.issue.number).as_str());
        start.append("-");
        if attempt.thesis != x.issue.number {
            self.invalid(x, comment, "attempt comment thesis number does not match the issue");
            return;
        }
        if !self.approved {
            self.invalid(x, comment, "attempt posted before a valid approval");
            return;
        }
        if issue_is_terminal(x, &comment.created_at) {
            self.invalid(
                x,
                comment,
                "attempt posted after the thesis was already closed or decided",
            );
            return;
        }
        let (node, owned) = match &self.claim {
            None => {
                self.invalid(
                    x,
                    comment,
                    "attempt posted without any active canonical claim",
                );
                return;
            },
            Some(c) => (
                c.node.clone(),
                text::same(c.author_login.as_str(), comment.author.as_str()),
            ),
        };
        if !owned {
            self.invalid(
                x,
                comment,
                "attempt author does not match the active canonical claim owner",
            );
        } else if !text::starts_with(attempt.branch.as_str(), start.as_str()) {
            self.invalid(
                x,
                comment,
                "attempt branch does not match the thesis branch naming convention",
            );
        } else if has_branch(&self.attempts, attempt.branch.as_str()) {
            self.suspicious(x, comment, "duplicate attempt branch recorded more than once");
        } else {
            let mut recorded = attempt;
            recorded.node = node;
            self.attempts.push(recorded);
        }
    }

    fn apply(&mut self, x: &IssueRules, comment: &ProtocolEnvelope)
        ensures
            final(self)@ == old(self)@.step(x@, *comment),
    {
        match &comment.protocol {
            Some(ProtocolComment::AdminNote { action, related_comment_id, .. }) => {
                self.note(x, comment, action.as_str(), *related_comment_id);
            },
            Some(ProtocolComment::SlashApprove { .. }) => {
                self.approve(x, comment);
            },
            Some(ProtocolComment::SlashReject { .. }) => {
                self.reject(x, comment);
            },
            Some(ProtocolComment::Approval { thesis }) => {
                self.approval(x, comment, *thesis);
            },
            Some(ProtocolComment::Claim { thesis, node }) => {
                self.claim(x, comment, *thesis, node);
            },
            Some(ProtocolComment::Release { thesis, node, reason }) => {
                self.release(x, comment, *thesis, node, *reason);
            },
            Some(
                ProtocolComment::Attempt {
                    thesis,
                    branch,
                    metric,
                    baseline_metric,
                    observation,
                    summary,
                    ..
                },
            ) => {
                let baseline = match baseline_metric {
                    Some(b) => Some(b.clone()),
                    None => None,
                };
                self.attempt(
                    x,
                    comment,
                    ValidAttemptRecord {
                        thesis: *thesis,
                        node: comment.author.clone(),
                        branch: branch.clone(),
                        metric: metric.clone(),
                        baseline_metric: baseline,
                        observation: *observation,
                        summary: summary.clone(),
                        author: comment.author.clone(),
                        created_at: comment.created_at,
                        comment_id: comment.id,
                    },
                );
            },
            _ => {},
        }
    }
}

fn invalidated_branches(attempts: &Vec<ValidAttemptRecord>, acknowledged: &Vec<u64>) -> (r: Vec<
    String,
>)
    ensures
        text::texts(r@) == text_set::set_of(
            IssueProgress::invalidated(attempts@, acknowledged@),
        ),
{
    let mut r: Vec<String> = Vec::new();
    let mut i: usize = 0;
    assert(attempts@.take(0) =~= Seq::<ValidAttemptRecord>::empty());
    assert(text::texts(r@) =~= Seq::<Seq<char>>::empty());
    while i < attempts.len()
        invariant
            i <= attempts.len(),
            text::texts(r@) == text_set::set_of(
                IssueProgress::invalidated(attempts@.take(i as int), acknowledged@),
            ),
        decreases attempts.len() - i,
    {
        proof {
            assert(attempts@.take(i + 1).drop_last() =~= attempts@.take(i as int));
            let rest = IssueProgress::invalidated(attempts@.take(i as int), acknowledged@);
            assert(rest.push(attempts@[i as int].branch@).drop_last() =~= rest);
        }
        if holds_id(acknowledged, attempts[i].comment_id) {
            text_set::insert(&mut r, attempts[i].branch.clone());
        }
        i = i + 1;
    }
    assert(attempts@.take(i as int) =~= attempts@);
    r
}

impl IssueValidation {
    /// What counts is what a discussion has come to, without an expired claim and without the
    /// findings that were acknowledged.
    pub open spec fn is(&self, p: IssueProgress) -> bool {
        &&& self.approved == p.approved
        &&& self.maintainer_approved == p.maintainer_approved
        &&& self.maintainer_rejected == p.maintainer_rejected
        &&& self.active_claims@ == (match p.claim {
            Some(c) => if c.expired {
                Seq::empty()
            } else {
                seq![c]
            },
            None => Seq::empty(),
        })
        &&& self.releases@ == p.releases
        &&& self.attempts@ == p.attempts
        &&& text::texts(self.invalidated_attempt_branches@) == text_set::set_of(
            IssueProgress::invalidated(p.attempts, p.acknowledged),
        )
        &&& finding_views(self.findings@) == unacknowledged(p.findings, p.acknowledged)
    }
}

/// Goes through the comments of an issue in the order in which they were posted.
pub fn validate_issue(
    issue: &Issue,
    comments: Vec<ProtocolEnvelope>,
    config: &ProtocolConfig,
    latest_valid_decision_at: Option<Timestamp>,
    now: Timestamp,
) -> (r: IssueValidation)
    ensures
        r.is(
            IssueProgress::after(
                (IssueContext {
                    issue: *issue,
                    config: *config,
                    latest_decision: latest_valid_decision_at,
                    now,
                }),
                sort::sorted(comments@),
            ),
        ),
{
    let x = IssueRules { issue, config, latest_decision: latest_valid_decision_at, now };
    let sorted: Vec<ProtocolEnvelope> = sort::sort(comments);
    let mut tally = IssueTally {
        approved: false,
        maintainer_approved: false,
        maintainer_rejected: false,
        claim: None,
        releases: Vec::new(),
        attempts: Vec::new(),
        findings: Vec::new(),
        acknowledged: Vec::new(),
    };
    let mut i: usize = 0;
    proof {
        assert(sorted@.take(0) =~= Seq::<ProtocolEnvelope>::empty());
        assert(finding_views(tally.findings@) =~= Seq::<FindingView>::empty());
    }
    while i < sorted.len()
        invariant
            i <= sorted.len(),
            tally@ == IssueProgress::after(x@, sorted@.take(i as int)),
        decreases sorted.len() - i,
    {
        assert(sorted@.take(i + 1).drop_last() =~= sorted@.take(i as int));
        tally.apply(&x, &sorted[i]);
        i = i + 1;
    }
    assert(sorted@.take(i as int) =~= sorted@);
    let findings: Vec<AuditFinding> = drop_acknowledged(&tally.findings, &tally.acknowledged);
    let invalidated_attempt_branches: Vec<String> = invalidated_branches(
        &tally.attempts,
        &tally.acknowledged,
    );
    let mut active_claims: Vec<ValidClaimRecord> = Vec::new();
    match tally.claim {
        Some(c) => {
            if !c.expired {
                active_claims.push(c);
            }
        },
        None => {},
    }
    proof {
        let p = IssueProgress::after(x@, sorted@);
        assert(active_claims@ =~= (match p.claim {
            Some(c) => if c.expired {
                Seq::empty()
            } else {
                seq![c]
            },
            None => Seq::empty(),
        }));
    }
    IssueValidation {
        approved: tally.approved,
        maintainer_approved: tally.maintainer_approved,
        maintainer_rejected: tally.maintainer_rejected,
        active_claims,
        releases: tally.releases,
        attempts: tally.attempts,
        invalidated_attempt_branches,
        findings,
    }
}

} // verus!
