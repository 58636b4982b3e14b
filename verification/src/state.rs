//! The state of a project, as its issues, pull requests and comments give it.
use crate::comments;
use crate::comments::{Observation, Outcome, ReleaseReason};
use crate::config::{MetricDirection, ProtocolConfig};
use crate::github::{Issue, IssueComment, PullRequest};
use crate::metric;
use crate::metric::Metric;
use crate::sort;
use crate::sort::Ranked;
use crate::text;
use crate::text_set;
use crate::time::Timestamp;
use crate::validation;
use crate::validation::{
    AuditFinding, IssueContext, IssueProgress, ProtocolEnvelope, PullRequestProgress,
    ValidAttemptRecord, ValidClaimRecord, ValidDecisionRecord, ValidReleaseRecord,
    ValidReviewClaimRecord, ValidReviewRecord,
};
use std::collections::HashMap;
use vstd::prelude::*;
use vstd::string::*;

verus! {

/// The state of a project.
#[derive(Debug)]
pub struct RepositoryState {
    pub theses: Vec<ThesisState>,
    pub pull_request_count: usize,
    pub active_nodes: Vec<String>,
    pub queue_depth: usize,
    pub current_best_accepted_metric: Option<Metric>,
    pub invalidated_attempt_branches: Vec<String>,
    pub recent_events: Vec<ActivityEvent>,
    pub audit_findings: Vec<AuditFinding>,
}

/// The state of a thesis.
#[derive(Debug)]
pub struct ThesisState {
    pub issue: Issue,
    pub phase: ThesisPhase,
    pub approved: bool,
    pub maintainer_approved: bool,
    pub maintainer_rejected: bool,
    pub active_claims: Vec<ClaimRecord>,
    pub releases: Vec<ReleaseRecord>,
    pub attempts: Vec<AttemptRecord>,
    pub pull_requests: Vec<PullRequestState>,
    pub best_attempt_metric: Option<Metric>,
    pub invalidated_attempt_branches: Vec<String>,
    pub findings: Vec<AuditFinding>,
}

/// How far a thesis has come.
#[derive(Clone, Copy, Debug, PartialEq, Eq, Structural)]
pub enum ThesisPhase {
    Submitted,
    Approved,
    Exhausted,
    Claimed,
    CandidateSubmitted,
    InReview,
    Resolved { outcome: Outcome },
    Rejected,
}

impl ThesisPhase {
    /// The name of the phase.
    pub open spec fn name(self) -> Seq<char> {
        match self {
            ThesisPhase::Submitted => "Submitted"@,
            ThesisPhase::Approved => "Approved"@,
            ThesisPhase::Exhausted => "Exhausted"@,
            ThesisPhase::Claimed => "Claimed"@,
            ThesisPhase::CandidateSubmitted => "CandidateSubmitted"@,
            ThesisPhase::InReview => "InReview"@,
            ThesisPhase::Resolved { outcome } => "Resolved { outcome: "@ + outcome.name() + " }"@,
            ThesisPhase::Rejected => "Rejected"@,
        }
    }

    /// The name of the phase.
    pub fn to_name(&self) -> (r: String)
        ensures
            r@ == self.name(),
    {
        match self {
            ThesisPhase::Submitted => "Submitted".to_owned(),
            ThesisPhase::Approved => "Approved".to_owned(),
            ThesisPhase::Exhausted => "Exhausted".to_owned(),
            ThesisPhase::Claimed => "Claimed".to_owned(),
            ThesisPhase::CandidateSubmitted => "CandidateSubmitted".to_owned(),
            ThesisPhase::InReview => "InReview".to_owned(),
            ThesisPhase::Resolved { outcome } => {
                let mut r = "Resolved { outcome: ".to_owned();
                r.append(outcome.to_name().as_str());
                r.append(" }");
                r
            },
            ThesisPhase::Rejected => "Rejected".to_owned(),
        }
    }
}

/// A claim on a thesis.
#[derive(Debug)]
pub struct ClaimRecord {
    pub node: String,
    pub created_at: Timestamp,
    pub expired: bool,
}

/// A release of a thesis.
#[derive(Debug)]
pub struct ReleaseRecord {
    pub node: String,
    pub reason: ReleaseReason,
    pub created_at: Timestamp,
}

/// An attempt at a thesis.
#[derive(Debug)]
pub struct AttemptRecord {
    pub thesis: u64,
    pub node: String,
    pub branch: String,
    pub metric: Metric,
    pub baseline_metric: Option<Metric>,
    pub observation: Observation,
    pub summary: String,
    pub author: String,
    pub created_at: Timestamp,
    pub comment_id: u64,
}

/// The state of a candidate.
#[derive(Debug)]
pub struct PullRequestState {
    pub pr: PullRequest,
    pub thesis_number: Option<u64>,
    pub policy_pass: bool,
    pub maintainer_approved: bool,
    pub maintainer_rejected: bool,
    pub review_claims: Vec<ReviewClaimRecord>,
    pub reviews: Vec<ReviewRecord>,
    pub decision: Option<DecisionRecord>,
    pub findings: Vec<AuditFinding>,
}

/// A claim to review a candidate.
#[derive(Debug)]
pub struct ReviewClaimRecord {
    pub node: String,
    pub created_at: Timestamp,
}

/// A review of a candidate.
#[derive(Debug)]
pub struct ReviewRecord {
    pub node: String,
    pub metric: Metric,
    pub baseline_metric: Metric,
    pub observation: Observation,
    pub candidate_sha: String,
    pub base_sha: String,
    pub env_sha: Option<String>,
    pub timestamp: Timestamp,
    pub created_at: Timestamp,
}

/// The decision on a candidate.
#[derive(Debug)]
pub struct DecisionRecord {
    pub outcome: Outcome,
    pub candidate_sha: String,
    pub confirmations: u64,
    pub created_at: Timestamp,
}

/// Something that happened in the project.
#[derive(Debug)]
pub struct ActivityEvent {
    pub source: String,
    pub created_at: Timestamp,
    pub summary: String,
}

impl Clone for ReviewClaimRecord {
    fn clone(&self) -> (r: Self)
        ensures
            r == *self,
    {
        ReviewClaimRecord { node: self.node.clone(), created_at: self.created_at }
    }
}

impl Clone for ReviewRecord {
    fn clone(&self) -> (r: Self)
        ensures
            r == *self,
    {
        ReviewRecord {
            node: self.node.clone(),
            metric: self.metric.clone(),
            baseline_metric: self.baseline_metric.clone(),
            observation: self.observation,
            candidate_sha: self.candidate_sha.clone(),
            base_sha: self.base_sha.clone(),
            env_sha: text::copy(&self.env_sha),
            timestamp: self.timestamp,
            created_at: self.created_at,
        }
    }
}

impl Clone for DecisionRecord {
    fn clone(&self) -> (r: Self)
        ensures
            r == *self,
    {
        DecisionRecord {
            outcome: self.outcome,
            candidate_sha: self.candidate_sha.clone(),
            confirmations: self.confirmations,
            created_at: self.created_at,
        }
    }
}

/// The contents of the state of a candidate.
pub struct PullRequestView {
    pub pr: PullRequest,
    pub thesis_number: Option<u64>,
    pub policy_pass: bool,
    pub maintainer_approved: bool,
    pub maintainer_rejected: bool,
    pub review_claims: Seq<ReviewClaimRecord>,
    pub reviews: Seq<ReviewRecord>,
    pub decision: Option<DecisionRecord>,
    pub findings: Seq<AuditFinding>,
}

impl View for PullRequestState {
    type V = PullRequestView;

    open spec fn view(&self) -> PullRequestView {
        PullRequestView {
            pr: self.pr,
            thesis_number: self.thesis_number,
            policy_pass: self.policy_pass,
            maintainer_approved: self.maintainer_approved,
            maintainer_rejected: self.maintainer_rejected,
            review_claims: self.review_claims@,
            reviews: self.reviews@,
            decision: self.decision,
            findings: self.findings@,
        }
    }
}

/// The contents of the states of candidates.
pub open spec fn pull_request_views(v: Seq<PullRequestState>) -> Seq<PullRequestView> {
    v.map_values(|p: PullRequestState| p@)
}

impl Clone for PullRequestState {
    fn clone(&self) -> (r: Self)
        ensures
            r@ == self@,
    {
        let decision = match &self.decision {
            Some(d) => Some(d.clone()),
            None => None,
        };
        let review_claims: Vec<ReviewClaimRecord> = self.review_claims.clone();
        let reviews: Vec<ReviewRecord> = self.reviews.clone();
        let findings: Vec<AuditFinding> = self.findings.clone();
        proof {
            assert(review_claims@ =~= self.review_claims@);
            assert(reviews@ =~= self.reviews@);
            assert(findings@ =~= self.findings@);
        }
        PullRequestState {
            pr: self.pr.clone(),
            thesis_number: self.thesis_number,
            policy_pass: self.policy_pass,
            maintainer_approved: self.maintainer_approved,
            maintainer_rejected: self.maintainer_rejected,
            review_claims,
            reviews,
            decision,
            findings,
        }
    }
}

/// The thesis that a branch belongs to: the number in `thesis/<number>-...`.
pub open spec fn thesis_of_branch(branch: Seq<char>) -> Option<u64> {
    match text::after_prefix(branch, "thesis/"@) {
        Some(suffix) => match text::cut(suffix, "-"@) {
            Some((number, _)) => match text::read_number(number, u64::MAX as nat) {
                Some(n) => Some(n as u64),
                None => None,
            },
            None => None,
        },
        None => None,
    }
}

/// The thesis that a branch belongs to.
pub fn parse_thesis_number_from_branch(branch: &str) -> (r: Option<u64>)
    ensures
        r == thesis_of_branch(branch@),
{
    match text::strip_prefix(branch, "thesis/") {
        Some(suffix) => match text::split_once(suffix, "-") {
            Some((number, _)) => text::parse_number(number, u64::MAX),
            None => None,
        },
        None => None,
    }
}

/// The better of two metrics: of two numbers the one that is better in the direction, the earlier
/// one where they are equal; a number before what is no number.
pub open spec fn better(current: Option<Metric>, candidate: Metric, direction: MetricDirection) -> Metric {
    match current {
        None => candidate,
        Some(existing) => if metric::not_a_number(existing.bits) {
            candidate
        } else {
            match direction {
                MetricDirection::HigherIsBetter => if metric::less(existing.bits, candidate.bits) {
                    candidate
                } else {
                    existing
                },
                MetricDirection::LowerIsBetter => if metric::less(candidate.bits, existing.bits) {
                    candidate
                } else {
                    existing
                },
            }
        },
    }
}

/// The better of two metrics.
pub fn select_metric(current: Option<Metric>, candidate: Metric, direction: MetricDirection) -> (r:
    Metric)
    ensures
        r == better(current, candidate, direction),
{
    match current {
        None => candidate,
        Some(existing) => {
            if metric::is_nan(existing.bits) {
                return candidate;
            }
            match direction {
                MetricDirection::HigherIsBetter => if metric::is_less(
                    existing.bits,
                    candidate.bits,
                ) {
                    candidate
                } else {
                    existing
                },
                MetricDirection::LowerIsBetter => if metric::is_less(
                    candidate.bits,
                    existing.bits,
                ) {
                    candidate
                } else {
                    existing
                },
            }
        },
    }
}

/// `a` is at least as good as `b`.
pub open spec fn as_good(a: Metric, b: Metric, direction: MetricDirection) -> bool {
    match direction {
        MetricDirection::HigherIsBetter => metric::at_most(b.bits, a.bits),
        MetricDirection::LowerIsBetter => metric::at_most(a.bits, b.bits),
    }
}

/// The best of metrics.
pub open spec fn best(metrics: Seq<Metric>, direction: MetricDirection) -> Option<Metric>
    decreases metrics.len(),
{
    if metrics.len() == 0 {
        None
    } else {
        Some(better(best(metrics.drop_last(), direction), metrics.last(), direction))
    }
}

/// The best of metrics is one of them, and where one of them is a number it is a number that is at
/// least as good as each number among them.
pub proof fn best_is_as_good_as_all(metrics: Seq<Metric>, direction: MetricDirection)
    requires
        metrics.len() > 0,
    ensures
        best(metrics, direction) is Some,
        metrics.contains(best(metrics, direction)->Some_0),
        forall|i: int|
            0 <= i < metrics.len() && !metric::not_a_number((#[trigger] metrics[i]).bits)
                ==> as_good(best(metrics, direction)->Some_0, metrics[i], direction),
    decreases metrics.len(),
{
    let rest = metrics.drop_last();
    let last = metrics.last();
    let b = best(metrics, direction)->Some_0;
    assert(metrics[metrics.len() - 1] == last);
    if rest.len() > 0 {
        best_is_as_good_as_all(rest, direction);
        let c = best(rest, direction)->Some_0;
        assert(rest.contains(c));
        let k = choose|k: int| 0 <= k < rest.len() && rest[k] == c;
        assert(metrics[k] == c);
        assert forall|i: int|
            0 <= i < metrics.len() && !metric::not_a_number((#[trigger] metrics[i]).bits) implies as_good(
            b,
            metrics[i],
            direction,
        ) by {
            if i < rest.len() {
                assert(rest[i] == metrics[i]);
                assert(as_good(c, rest[i], direction));
            }
        }
    }
}

/// What the protocol reads from comments, each in its place.
pub open spec fn reads(envelopes: Seq<ProtocolEnvelope>, posted: Seq<IssueComment>) -> bool {
    &&& envelopes.len() == posted.len()
    &&& forall|i: int|
        0 <= i < posted.len() ==> {
            let e = #[trigger] envelopes[i];
            let c = posted[i];
            &&& e.id == c.id
            &&& e.author == c.user.login
            &&& e.created_at == c.created_at
            &&& match e.protocol {
                Some(p) => comments::parsed(c.body@, c.readings@) == Some(p@),
                None => comments::parsed(c.body@, c.readings@) is None,
            }
        }
}

fn read_comments(posted: Vec<IssueComment>) -> (r: Result<Vec<ProtocolEnvelope>, String>)
    ensures
        r matches Ok(v) && reads(v@, posted@),
{
    let ghost all = posted@;
    let mut rest: Vec<IssueComment> = posted;
    let mut back: Vec<ProtocolEnvelope> = Vec::new();
    let n: usize = rest.len();
    while rest.len() > 0
        invariant
            n == all.len(),
            back.len() + rest.len() == n,
            rest@ == all.take(rest.len() as int),
            forall|i: int|
                0 <= i < back.len() ==> {
                    let e = #[trigger] back@[i];
                    let c = all[n - 1 - i];
                    &&& e.id == c.id
                    &&& e.author == c.user.login
                    &&& e.created_at == c.created_at
                    &&& match e.protocol {
                        Some(p) => comments::parsed(c.body@, c.readings@) == Some(p@),
                        None => comments::parsed(c.body@, c.readings@) is None,
                    }
                },
        decreases rest.len(),
    {
        let ghost k = rest.len() - 1;
        match rest.pop() {
            Some(c) => {
                assert(c == all[k]);
                match ProtocolEnvelope::from_issue_comment(c) {
                    Ok(e) => {
                        back.push(e);
                    },
                    Err(e) => {
                        return Err(e);
                    },
                }
                assert(rest@ =~= all.take(rest.len() as int));
            },
            None => {},
        }
    }
    let mut v: Vec<ProtocolEnvelope> = Vec::new();
    let ghost whole = back@;
    while back.len() > 0
        invariant
            n == all.len(),
            whole.len() == n,
            v.len() + back.len() == n,
            back@ == whole.take(back.len() as int),
            forall|i: int| 0 <= i < v.len() ==> #[trigger] v@[i] == whole[n - 1 - i],
        decreases back.len(),
    {
        let ghost k = back.len() - 1;
        match back.pop() {
            Some(e) => {
                assert(e == whole[k]);
                v.push(e);
                assert(back@ =~= whole.take(back.len() as int));
            },
            None => {},
        }
    }
    proof {
        assert forall|i: int| 0 <= i < all.len() implies {
            let e = #[trigger] v@[i];
            let c = all[i];
            &&& e.id == c.id
            &&& e.author == c.user.login
            &&& e.created_at == c.created_at
            &&& match e.protocol {
                Some(p) => comments::parsed(c.body@, c.readings@) == Some(p@),
                None => comments::parsed(c.body@, c.readings@) is None,
            }
        } by {
            assert(v@[i] == whole[n - 1 - i]);
        }
    }
    Ok(v)
}

/// A claim to review as the state shows it.
pub open spec fn shown_review_claim(c: ValidReviewClaimRecord) -> ReviewClaimRecord {
    ReviewClaimRecord { node: c.node, created_at: c.created_at }
}

/// A review as the state shows it.
pub open spec fn shown_review(r: ValidReviewRecord) -> ReviewRecord {
    ReviewRecord {
        node: r.node,
        metric: r.metric,
        baseline_metric: r.baseline_metric,
        observation: r.observation,
        candidate_sha: r.candidate_sha,
        base_sha: r.base_sha,
        env_sha: r.env_sha,
        timestamp: r.timestamp,
        created_at: r.created_at,
    }
}

/// A decision as the state shows it.
pub open spec fn shown_decision(d: ValidDecisionRecord) -> DecisionRecord {
    DecisionRecord {
        outcome: d.outcome,
        candidate_sha: d.candidate_sha,
        confirmations: d.confirmations,
        created_at: d.created_at,
    }
}

/// A claim as the state shows it.
pub open spec fn shown_claim(c: ValidClaimRecord) -> ClaimRecord {
    ClaimRecord { node: c.node, created_at: c.created_at, expired: c.expired }
}

/// A release as the state shows it.
pub open spec fn shown_release(r: ValidReleaseRecord) -> ReleaseRecord {
    ReleaseRecord { node: r.node, reason: r.reason, created_at: r.created_at }
}

/// An attempt as the state shows it.
pub open spec fn shown_attempt(a: ValidAttemptRecord) -> AttemptRecord {
    AttemptRecord {
        thesis: a.thesis,
        node: a.node,
        branch: a.branch,
        metric: a.metric,
        baseline_metric: a.baseline_metric,
        observation: a.observation,
        summary: a.summary,
        author: a.author,
        created_at: a.created_at,
        comment_id: a.comment_id,
    }
}

fn show_review_claims(v: &Vec<ValidReviewClaimRecord>) -> (r: Vec<ReviewClaimRecord>)
    ensures
        r@ == v@.map_values(|c: ValidReviewClaimRecord| shown_review_claim(c)),
{
    let mut r: Vec<ReviewClaimRecord> = Vec::new();
    let ghost all = v@.map_values(|c: ValidReviewClaimRecord| shown_review_claim(c));
    let mut i: usize = 0;
    while i < v.len()
        invariant
            i <= v.len(),
            all == v@.map_values(|c: ValidReviewClaimRecord| shown_review_claim(c)),
            r@ =~= all.take(i as int),
        decreases v.len() - i,
    {
        r.push(ReviewClaimRecord { node: v[i].node.clone(), created_at: v[i].created_at });
        assert(all.take(i + 1) =~= all.take(i as int).push(all[i as int]));
        i = i + 1;
    }
    assert(all.take(i as int) =~= all);
    r
}

fn show_reviews(v: &Vec<ValidReviewRecord>) -> (r: Vec<ReviewRecord>)
    ensures
        r@ == v@.map_values(|c: ValidReviewRecord| shown_review(c)),
{
    let mut r: Vec<ReviewRecord> = Vec::new();
    let ghost all = v@.map_values(|c: ValidReviewRecord| shown_review(c));
    let mut i: usize = 0;
    while i < v.len()
        invariant
            i <= v.len(),
            all == v@.map_values(|c: ValidReviewRecord| shown_review(c)),
            r@ =~= all.take(i as int),
        decreases v.len() - i,
    {
        r.push(
            ReviewRecord {
                node: v[i].node.clone(),
                metric: v[i].metric.clone(),
                baseline_metric: v[i].baseline_metric.clone(),
                observation: v[i].observation,
                candidate_sha: v[i].candidate_sha.clone(),
                base_sha: v[i].base_sha.clone(),
                env_sha: text::copy(&v[i].env_sha),
                timestamp: v[i].timestamp,
                created_at: v[i].created_at,
            },
        );
        assert(all.take(i + 1) =~= all.take(i as int).push(all[i as int]));
        i = i + 1;
    }
    assert(all.take(i as int) =~= all);
    r
}

fn show_claims(v: &Vec<ValidClaimRecord>) -> (r: Vec<ClaimRecord>)
    ensures
        r@ == v@.map_values(|c: ValidClaimRecord| shown_claim(c)),
{
    let mut r: Vec<ClaimRecord> = Vec::new();
    let ghost all = v@.map_values(|c: ValidClaimRecord| shown_claim(c));
    let mut i: usize = 0;
    while i < v.len()
        invariant
            i <= v.len(),
            all == v@.map_values(|c: ValidClaimRecord| shown_claim(c)),
            r@ =~= all.take(i as int),
        decreases v.len() - i,
    {
        r.push(
            ClaimRecord {
                node: v[i].node.clone(),
                created_at: v[i].created_at,
                expired: v[i].expired,
            },
        );
        assert(all.take(i + 1) =~= all.take(i as int).push(all[i as int]));
        i = i + 1;
    }
    assert(all.take(i as int) =~= all);
    r
}

fn show_releases(v: &Vec<ValidReleaseRecord>) -> (r: Vec<ReleaseRecord>)
    ensures
        r@ == v@.map_values(|c: ValidReleaseRecord| shown_release(c)),
{
    let mut r: Vec<ReleaseRecord> = Vec::new();
    let ghost all = v@.map_values(|c: ValidReleaseRecord| shown_release(c));
    let mut i: usize = 0;
    while i < v.len()
        invariant
            i <= v.len(),
            all == v@.map_values(|c: ValidReleaseRecord| shown_release(c)),
            r@ =~= all.take(i as int),
        decreases v.len() - i,
    {
        r.push(
            ReleaseRecord {
                node: v[i].node.clone(),
                reason: v[i].reason,
                created_at: v[i].created_at,
            },
        );
        assert(all.take(i + 1) =~= all.take(i as int).push(all[i as int]));
        i = i + 1;
    }
    assert(all.take(i as int) =~= all);
    r
}

fn show_attempts(v: &Vec<ValidAttemptRecord>) -> (r: Vec<AttemptRecord>)
    ensures
        r@ == v@.map_values(|c: ValidAttemptRecord| shown_attempt(c)),
{
    let mut r: Vec<AttemptRecord> = Vec::new();
    let ghost all = v@.map_values(|c: ValidAttemptRecord| shown_attempt(c));
    let mut i: usize = 0;
    while i < v.len()
        invariant
            i <= v.len(),
            all == v@.map_values(|c: ValidAttemptRecord| shown_attempt(c)),
            r@ =~= all.take(i as int),
        decreases v.len() - i,
    {
        let baseline_metric = match &v[i].baseline_metric {
            Some(b) => Some(b.clone()),
            None => None,
        };
        r.push(
            AttemptRecord {
                thesis: v[i].thesis,
                node: v[i].node.clone(),
                branch: v[i].branch.clone(),
                metric: v[i].metric.clone(),
                baseline_metric,
                observation: v[i].observation,
                summary: v[i].summary.clone(),
                author: v[i].author.clone(),
                created_at: v[i].created_at,
                comment_id: v[i].comment_id,
            },
        );
        assert(all.take(i + 1) =~= all.take(i as int).push(all[i as int]));
        i = i + 1;
    }
    assert(all.take(i as int) =~= all);
    r
}

impl PullRequestState {
    /// The state is what a discussion of the candidate has come to.
    pub open spec fn shows(&self, pr: PullRequest, p: PullRequestProgress) -> bool {
        &&& self.pr == pr
        &&& self.thesis_number == thesis_of_branch(pr.head_ref_name@)
        &&& self.policy_pass == p.policy_pass
        &&& self.maintainer_approved == p.maintainer_approved
        &&& self.maintainer_rejected == p.maintainer_rejected
        &&& self.review_claims@ == p.review_claims.map_values(
            |c: ValidReviewClaimRecord| shown_review_claim(c),
        )
        &&& self.reviews@ == p.reviews.map_values(|c: ValidReviewRecord| shown_review(c))
        &&& self.decision == (match p.decision {
            Some(d) => Some(shown_decision(d)),
            None => None,
        })
        &&& validation::finding_views(self.findings@) == validation::unacknowledged(
            p.findings,
            p.acknowledged,
        )
    }

    /// The state comes from the comments that were posted.
    pub open spec fn derived(
        &self,
        pr: PullRequest,
        posted: Seq<IssueComment>,
        config: ProtocolConfig,
    ) -> bool {
        exists|envelopes: Seq<ProtocolEnvelope>| #[trigger]
            reads(envelopes, posted) && self.shows(
                pr,
                PullRequestProgress::after(pr, sort::sorted(envelopes), config),
            )
    }

    /// The state of a candidate, as the comments on it give it.
    pub fn derive(pr: PullRequest, posted: Vec<IssueComment>, config: &ProtocolConfig) -> (r: Result<
        Self,
        String,
    >)
        ensures
            r matches Ok(state) && state.derived(pr, posted@, *config),
    {
        let envelopes: Vec<ProtocolEnvelope> = match read_comments(posted) {
            Ok(v) => v,
            Err(e) => {
                return Err(e);
            },
        };
        let ghost read = envelopes@;
        let validation = validation::validate_pull_request(&pr, envelopes, config);
        let decision = match &validation.decision {
            Some(d) => Some(
                DecisionRecord {
                    outcome: d.outcome,
                    candidate_sha: d.candidate_sha.clone(),
                    confirmations: d.confirmations,
                    created_at: d.created_at,
                },
            ),
            None => None,
        };
        let state = PullRequestState {
            pr,
            thesis_number: validation.thesis_number,
            policy_pass: validation.policy_pass,
            maintainer_approved: validation.maintainer_approved,
            maintainer_rejected: validation.maintainer_rejected,
            review_claims: show_review_claims(&validation.review_claims),
            reviews: show_reviews(&validation.reviews),
            decision,
            findings: validation.findings,
        };
        assert(reads(read, posted@));
        Ok(state)
    }

    /// What the maintainer says of the candidate.
    pub open spec fn maintainer_word(&self, auto_approve: bool) -> Seq<char> {
        if auto_approve {
            "auto"@
        } else if self.maintainer_rejected {
            "rejected"@
        } else if self.maintainer_approved {
            "approved"@
        } else {
            "waiting"@
        }
    }

    /// What the maintainer says of the candidate.
    pub fn maintainer_status(&self, auto_approve: bool) -> (r: &'static str)
        ensures
            r@ == self.maintainer_word(auto_approve),
    {
        if auto_approve {
            "auto"
        } else if self.maintainer_rejected {
            "rejected"
        } else if self.maintainer_approved {
            "approved"
        } else {
            "waiting"
        }
    }
}

/// The latest decision among candidates; of two at one time the one of the later candidate.
pub open spec fn latest_decision(prs: Seq<PullRequestView>) -> Option<DecisionRecord>
    decreases prs.len(),
{
    if prs.len() == 0 {
        None
    } else {
        match (latest_decision(prs.drop_last()), prs.last().decision) {
            (Some(a), Some(b)) => if b.created_at.earlier(a.created_at) {
                Some(a)
            } else {
                Some(b)
            },
            (Some(a), None) => Some(a),
            (None, b) => b,
        }
    }
}

/// A candidate waits to be decided.
pub open spec fn is_open(pr: PullRequestView) -> bool {
    pr.pr.state@ == "OPEN"@
}

/// One of the candidates is open and has passed the policy.
pub open spec fn some_in_review(prs: Seq<PullRequestView>) -> bool {
    exists|i: int| 0 <= i < prs.len() && is_open(#[trigger] prs[i]) && prs[i].policy_pass
}

/// One of the candidates is open.
pub open spec fn some_open(prs: Seq<PullRequestView>) -> bool {
    exists|i: int| 0 <= i < prs.len() && is_open(#[trigger] prs[i])
}

/// One of the releases says that there was no improvement.
pub open spec fn some_gave_up(releases: Seq<ReleaseRecord>) -> bool {
    exists|i: int|
        0 <= i < releases.len() && (#[trigger] releases[i]).reason == ReleaseReason::NoImprovement
}

/// How far a thesis has come.
pub open spec fn phase_of(
    prs: Seq<PullRequestView>,
    claimed: bool,
    approved: bool,
    releases: Seq<ReleaseRecord>,
    issue_state: Seq<char>,
) -> ThesisPhase {
    match latest_decision(prs) {
        Some(d) => ThesisPhase::Resolved { outcome: d.outcome },
        None => if some_in_review(prs) {
            ThesisPhase::InReview
        } else if some_open(prs) {
            ThesisPhase::CandidateSubmitted
        } else if claimed {
            ThesisPhase::Claimed
        } else if approved && some_gave_up(releases) {
            ThesisPhase::Exhausted
        } else if approved {
            ThesisPhase::Approved
        } else if issue_state == "CLOSED"@ {
            ThesisPhase::Rejected
        } else {
            ThesisPhase::Submitted
        },
    }
}

/// The candidates for a thesis.
pub open spec fn candidates_for(prs: Seq<PullRequestView>, number: u64) -> Seq<PullRequestView>
    decreases prs.len(),
{
    if prs.len() == 0 {
        prs
    } else {
        let rest = candidates_for(prs.drop_last(), number);
        if prs.last().thesis_number == Some(number) {
            rest.push(prs.last())
        } else {
            rest
        }
    }
}

/// The metrics of attempts.
pub open spec fn attempt_metrics(attempts: Seq<AttemptRecord>) -> Seq<Metric> {
    attempts.map_values(|a: AttemptRecord| a.metric)
}

fn find_latest(prs: &Vec<PullRequestState>) -> (r: Option<DecisionRecord>)
    ensures
        r == latest_decision(pull_request_views(prs@)),
{
    let ghost all = pull_request_views(prs@);
    let mut best: Option<DecisionRecord> = None;
    let mut i: usize = 0;
    assert(all.take(0).len() == 0);
    while i < prs.len()
        invariant
            i <= prs.len(),
            all == pull_request_views(prs@),
            best == latest_decision(all.take(i as int)),
        decreases prs.len() - i,
    {
        proof {
            assert(all.take(i + 1).drop_last() =~= all.take(i as int));
            assert(all.take(i + 1).last() == prs@[i as int]@);
        }
        match &prs[i].decision {
            Some(b) => {
                let keep = match &best {
                    Some(a) => b.created_at.before(&a.created_at),
                    None => false,
                };
                if !keep {
                    best = Some(b.clone());
                }
            },
            None => {},
        }
        i = i + 1;
    }
    assert(all.take(i as int) =~= all);
    best
}

fn any_open(prs: &Vec<PullRequestState>, passed: bool) -> (r: bool)
    ensures
        r == (if passed {
            some_in_review(pull_request_views(prs@))
        } else {
            some_open(pull_request_views(prs@))
        }),
{
    let ghost all = pull_request_views(prs@);
    let mut i: usize = 0;
    while i < prs.len()
        invariant
            i <= prs.len(),
            all == pull_request_views(prs@),
            forall|j: int|
                0 <= j < i ==> !(is_open(#[trigger] all[j]) && (!passed || all[j].policy_pass)),
        decreases prs.len() - i,
    {
        assert(all[i as int] == prs@[i as int]@);
        if text::same(prs[i].pr.state.as_str(), "OPEN") && (!passed || prs[i].policy_pass) {
            assert(is_open(all[i as int]));
            return true;
        }
        i = i + 1;
    }
    false
}

fn any_gave_up(releases: &Vec<ReleaseRecord>) -> (r: bool)
    ensures
        r == some_gave_up(releases@),
{
    let mut i: usize = 0;
    while i < releases.len()
        invariant
            i <= releases.len(),
            forall|j: int|
                0 <= j < i ==> (#[trigger] releases@[j]).reason != ReleaseReason::NoImprovement,
        decreases releases.len() - i,
    {
        if releases[i].reason == ReleaseReason::NoImprovement {
            assert(releases@[i as int].reason == ReleaseReason::NoImprovement);
            return true;
        }
        i = i + 1;
    }
    false
}

fn pick_candidates(prs: &Vec<PullRequestState>, number: u64) -> (r: Vec<PullRequestState>)
    ensures
        pull_request_views(r@) == candidates_for(pull_request_views(prs@), number),
{
    let ghost all = pull_request_views(prs@);
    let mut r: Vec<PullRequestState> = Vec::new();
    let mut i: usize = 0;
    assert(all.take(0) =~= Seq::<PullRequestView>::empty());
    assert(pull_request_views(r@) =~= Seq::<PullRequestView>::empty());
    while i < prs.len()
        invariant
            i <= prs.len(),
            all == pull_request_views(prs@),
            pull_request_views(r@) == candidates_for(all.take(i as int), number),
        decreases prs.len() - i,
    {
        let ghost before = r@;
        proof {
            assert(all.take(i + 1).drop_last() =~= all.take(i as int));
            assert(all.take(i + 1).last() == prs@[i as int]@);
        }
        let mine = match prs[i].thesis_number {
            Some(n) => n == number,
            None => false,
        };
        if mine {
            r.push(prs[i].clone());
            assert(pull_request_views(r@) =~= pull_request_views(before).push(prs@[i as int]@));
        }
        i = i + 1;
    }
    assert(all.take(i as int) =~= all);
    r
}

fn best_attempt(attempts: &Vec<AttemptRecord>, direction: MetricDirection) -> (r: Option<Metric>)
    ensures
        r == best(attempt_metrics(attempts@), direction),
{
    let ghost all = attempt_metrics(attempts@);
    let mut current: Option<Metric> = None;
    let mut i: usize = 0;
    assert(all.take(0).len() == 0);
    while i < attempts.len()
        invariant
            i <= attempts.len(),
            all == attempt_metrics(attempts@),
            current == best(all.take(i as int), direction),
        decreases attempts.len() - i,
    {
        proof {
            assert(all.take(i + 1).drop_last() =~= all.take(i as int));
            assert(all.take(i + 1).last() == attempts@[i as int].metric);
        }
        current = Some(select_metric(current, attempts[i].metric.clone(), direction));
        i = i + 1;
    }
    assert(all.take(i as int) =~= all);
    current
}

impl ThesisState {
    /// The state is what a discussion of the thesis has come to.
    pub open spec fn shows(
        &self,
        issue: Issue,
        prs: Seq<PullRequestView>,
        p: IssueProgress,
        direction: MetricDirection,
    ) -> bool {
        let claims = match p.claim {
            Some(c) => if c.expired {
                Seq::empty()
            } else {
                seq![shown_claim(c)]
            },
            None => Seq::empty(),
        };
        &&& self.issue == issue
        &&& self.approved == p.approved
        &&& self.maintainer_approved == p.maintainer_approved
        &&& self.maintainer_rejected == p.maintainer_rejected
        &&& self.releases@ == p.releases.map_values(|c: ValidReleaseRecord| shown_release(c))
        &&& self.attempts@ == p.attempts.map_values(|c: ValidAttemptRecord| shown_attempt(c))
        &&& pull_request_views(self.pull_requests@) == prs
        &&& self.phase == phase_of(prs, claims.len() > 0, p.approved, self.releases@, issue.state@)
        &&& self.active_claims@ == (if self.phase is Resolved {
            Seq::empty()
        } else {
            claims
        })
        &&& self.best_attempt_metric == best(attempt_metrics(self.attempts@), direction)
        &&& text::texts(self.invalidated_attempt_branches@) == text_set::set_of(
            IssueProgress::invalidated(p.attempts, p.acknowledged),
        )
        &&& validation::finding_views(self.findings@) == validation::unacknowledged(
            p.findings,
            p.acknowledged,
        )
    }

    /// The state comes from the comments that were posted and from the candidates.
    pub open spec fn derived(
        &self,
        issue: Issue,
        posted: Seq<IssueComment>,
        pr_states: Seq<PullRequestView>,
        config: ProtocolConfig,
        now: Timestamp,
    ) -> bool {
        let prs = candidates_for(pr_states, issue.number);
        let x = IssueContext {
            issue,
            config,
            latest_decision: match latest_decision(prs) {
                Some(d) => Some(d.created_at),
                None => None,
            },
            now,
        };
        exists|envelopes: Seq<ProtocolEnvelope>| #[trigger]
            reads(envelopes, posted) && self.shows(
                issue,
                prs,
                IssueProgress::after(x, sort::sorted(envelopes)),
                config.metric_direction,
            )
    }

    /// The state of a thesis, as the comments on it and its candidates give it.
    pub fn derive(
        issue: Issue,
        posted: Vec<IssueComment>,
        pr_states: &Vec<PullRequestState>,
        config: &ProtocolConfig,
        now: Timestamp,
    ) -> (r: Result<Self, String>)
        ensures
            r matches Ok(state) && state.derived(
                issue,
                posted@,
                pull_request_views(pr_states@),
                *config,
                now,
            ),
    {
        let envelopes: Vec<ProtocolEnvelope> = match read_comments(posted) {
            Ok(v) => v,
            Err(e) => {
                return Err(e);
            },
        };
        let ghost read = envelopes@;
        let pull_requests: Vec<PullRequestState> = pick_candidates(pr_states, issue.number);
        let decision = find_latest(&pull_requests);
        let latest_valid_decision_at = match &decision {
            Some(d) => Some(d.created_at),
            None => None,
        };
        let validation = validation::validate_issue(
            &issue,
            envelopes,
            config,
            latest_valid_decision_at,
            now,
        );
        let attempts: Vec<AttemptRecord> = show_attempts(&validation.attempts);
        let releases: Vec<ReleaseRecord> = show_releases(&validation.releases);
        let mut active_claims: Vec<ClaimRecord> = show_claims(&validation.active_claims);
        let phase = match decision {
            Some(d) => ThesisPhase::Resolved { outcome: d.outcome },
            None => if any_open(&pull_requests, true) {
                ThesisPhase::InReview
            } else if any_open(&pull_requests, false) {
                ThesisPhase::CandidateSubmitted
            } else if active_claims.len() > 0 {
                ThesisPhase::Claimed
            } else if validation.approved && any_gave_up(&releases) {
                ThesisPhase::Exhausted
            } else if validation.approved {
                ThesisPhase::Approved
            } else if text::same(issue.state.as_str(), "CLOSED") {
                ThesisPhase::Rejected
            } else {
                ThesisPhase::Submitted
            },
        };
        let ghost claims = active_claims@;
        if let ThesisPhase::Resolved { .. } = phase {
            active_claims = Vec::new();
        }
        let best_attempt_metric = best_attempt(&attempts, config.metric_direction);
        let state = ThesisState {
            issue,
            phase,
            approved: validation.approved,
            maintainer_approved: validation.maintainer_approved,
            maintainer_rejected: validation.maintainer_rejected,
            active_claims,
            releases,
            attempts,
            pull_requests,
            best_attempt_metric,
            invalidated_attempt_branches: validation.invalidated_attempt_branches,
            findings: validation.findings,
        };
        proof {
            assert(reads(read, posted@));
            let prs = pull_request_views(state.pull_requests@);
            let x = IssueContext {
                issue,
                config: *config,
                latest_decision: latest_valid_decision_at,
                now,
            };
            let p = IssueProgress::after(x, sort::sorted(read));
            assert(claims =~= (match p.claim {
                Some(c) => if c.expired {
                    Seq::empty()
                } else {
                    seq![shown_claim(c)]
                },
                None => Seq::empty(),
            }));
            assert(state.active_claims@ =~= (if state.phase is Resolved {
                Seq::empty()
            } else {
                claims
            }));
            assert(state.shows(issue, prs, p, config.metric_direction));
        }
        Ok(state)
    }
}

/// The first candidate that was accepted.
pub open spec fn first_accepted(prs: Seq<PullRequestState>, i: int) -> Option<int>
    decreases prs.len() - i,
{
    if i >= prs.len() {
        None
    } else if prs[i].decision matches Some(d) && d.outcome == Outcome::Accepted {
        Some(i)
    } else {
        first_accepted(prs, i + 1)
    }
}

/// The first attempt on a branch.
pub open spec fn first_on_branch(attempts: Seq<AttemptRecord>, branch: Seq<char>, i: int) -> Option<int>
    decreases attempts.len() - i,
{
    if i >= attempts.len() {
        None
    } else if attempts[i].branch@ == branch {
        Some(i)
    } else {
        first_on_branch(attempts, branch, i + 1)
    }
}

/// The first candidate that is open.
pub open spec fn first_open(prs: Seq<PullRequestState>, i: int) -> Option<int>
    decreases prs.len() - i,
{
    if i >= prs.len() {
        None
    } else if prs[i].pr.state@ == "OPEN"@ {
        Some(i)
    } else {
        first_open(prs, i + 1)
    }
}

/// The contents of an event.
pub struct EventView {
    pub source: Seq<char>,
    pub created_at: Timestamp,
    pub summary: Seq<char>,
}

impl View for ActivityEvent {
    type V = EventView;

    open spec fn view(&self) -> EventView {
        EventView { source: self.source@, created_at: self.created_at, summary: self.summary@ }
    }
}

/// The contents of events.
pub open spec fn event_views(v: Seq<ActivityEvent>) -> Seq<EventView> {
    v.map_values(|e: ActivityEvent| e@)
}

impl Ranked for ActivityEvent {
    open spec fn after(self, other: Self) -> bool {
        self.created_at.earlier(other.created_at)
    }

    proof fn one_way(a: Self, b: Self) {
    }

    proof fn carries_over(a: Self, b: Self, c: Self) {
    }

    fn is_after(&self, other: &Self) -> (r: bool) {
        self.created_at.before(&other.created_at)
    }
}

impl ThesisState {
    /// The metric of the attempt that was accepted.
    pub open spec fn accepted(&self) -> Option<Metric> {
        match first_accepted(self.pull_requests@, 0) {
            Some(i) => match first_on_branch(
                self.attempts@,
                self.pull_requests@[i].pr.head_ref_name@,
                0,
            ) {
                Some(k) => Some(self.attempts@[k].metric),
                None => None,
            },
            None => None,
        }
    }

    /// The metric of the attempt that was accepted.
    pub fn accepted_metric(&self) -> (r: Option<Metric>)
        ensures
            r == self.accepted(),
    {
        let mut i: usize = 0;
        while i < self.pull_requests.len()
            invariant
                i <= self.pull_requests.len(),
                first_accepted(self.pull_requests@, 0) == first_accepted(
                    self.pull_requests@,
                    i as int,
                ),
            decreases self.pull_requests.len() - i,
        {
            let accepted = match &self.pull_requests[i].decision {
                Some(d) => d.outcome == Outcome::Accepted,
                None => false,
            };
            if accepted {
                let branch = self.pull_requests[i].pr.head_ref_name.as_str();
                let mut k: usize = 0;
                while k < self.attempts.len()
                    invariant
                        k <= self.attempts.len(),
                        i < self.pull_requests.len(),
                        first_accepted(self.pull_requests@, 0) == Some(i as int),
                        branch@ == self.pull_requests@[i as int].pr.head_ref_name@,
                        first_on_branch(self.attempts@, branch@, 0) == first_on_branch(
                            self.attempts@,
                            branch@,
                            k as int,
                        ),
                    decreases self.attempts.len() - k,
                {
                    if text::same(self.attempts[k].branch.as_str(), branch) {
                        return Some(self.attempts[k].metric.clone());
                    }
                    k = k + 1;
                }
                return None;
            }
            i = i + 1;
        }
        None
    }

    /// The word for the phase.
    pub open spec fn phase_word(&self) -> Seq<char> {
        match self.phase {
            ThesisPhase::Submitted => "submitted"@,
            ThesisPhase::Approved => "approved"@,
            ThesisPhase::Exhausted => "exhausted"@,
            ThesisPhase::Claimed => "claimed"@,
            ThesisPhase::CandidateSubmitted => "candidate_submitted"@,
            ThesisPhase::InReview => "in_review"@,
            ThesisPhase::Resolved { outcome } => outcome.word(),
            ThesisPhase::Rejected => "rejected"@,
        }
    }

    /// The word for the phase.
    pub fn phase_label(&self) -> (r: String)
        ensures
            r@ == self.phase_word(),
    {
        match &self.phase {
            ThesisPhase::Submitted => "submitted".to_owned(),
            ThesisPhase::Approved => "approved".to_owned(),
            ThesisPhase::Exhausted => "exhausted".to_owned(),
            ThesisPhase::Claimed => "claimed".to_owned(),
            ThesisPhase::CandidateSubmitted => "candidate_submitted".to_owned(),
            ThesisPhase::InReview => "in_review".to_owned(),
            ThesisPhase::Resolved { outcome } => outcome.text(),
            ThesisPhase::Rejected => "rejected".to_owned(),
        }
    }

    /// A node holds the thesis.
    pub open spec fn held_by(&self, node: Seq<char>) -> bool {
        exists|i: int|
            0 <= i < self.active_claims@.len() && (#[trigger] self.active_claims@[i]).node@ == node
    }

    /// Whether a node holds the thesis.
    pub fn is_claimed_by(&self, node: &str) -> (r: bool)
        ensures
            r == self.held_by(node@),
    {
        let mut i: usize = 0;
        while i < self.active_claims.len()
            invariant
                i <= self.active_claims.len(),
                forall|j: int|
                    0 <= j < i ==> (#[trigger] self.active_claims@[j]).node@ != node@,
            decreases self.active_claims.len() - i,
        {
            if text::same(self.active_claims[i].node.as_str(), node) {
                assert(self.active_claims@[i as int].node@ == node@);
                return true;
            }
            i = i + 1;
        }
        false
    }

    /// What the maintainer says of the thesis: of its first open candidate, where it has one.
    pub open spec fn maintainer_word(&self, auto_approve: bool) -> Seq<char> {
        if auto_approve {
            "auto"@
        } else {
            match first_open(self.pull_requests@, 0) {
                Some(i) => "PR "@ + self.pull_requests@[i].maintainer_word(auto_approve),
                None => if self.maintainer_rejected {
                    "rejected"@
                } else if self.approved {
                    "approved"@
                } else {
                    "waiting"@
                },
            }
        }
    }

    /// What the maintainer says of the thesis.
    pub fn maintainer_summary(&self, auto_approve: bool) -> (r: String)
        ensures
            r@ == self.maintainer_word(auto_approve),
    {
        if auto_approve {
            return "auto".to_owned();
        }
        let mut i: usize = 0;
        while i < self.pull_requests.len()
            invariant
                i <= self.pull_requests.len(),
                first_open(self.pull_requests@, 0) == first_open(self.pull_requests@, i as int),
                !auto_approve,
            decreases self.pull_requests.len() - i,
        {
            if text::same(self.pull_requests[i].pr.state.as_str(), "OPEN") {
                let mut r = "PR ".to_owned();
                r.append(self.pull_requests[i].maintainer_status(auto_approve));
                return r;
            }
            i = i + 1;
        }
        if self.maintainer_rejected {
            "rejected".to_owned()
        } else if self.approved {
            "approved".to_owned()
        } else {
            "waiting".to_owned()
        }
    }

    /// Where the events of the issue come from.
    pub open spec fn issue_source(&self) -> Seq<char> {
        "issue #"@ + text::decimal(self.issue.number as nat)
    }

    /// The events of claims.
    pub open spec fn claim_events(&self, claims: Seq<ClaimRecord>) -> Seq<EventView> {
        claims.map_values(
            |c: ClaimRecord|
                EventView {
                    source: self.issue_source(),
                    created_at: c.created_at,
                    summary: "Claimed by "@ + c.node@,
                },
        )
    }

    /// The events of releases.
    pub open spec fn release_events(&self, releases: Seq<ReleaseRecord>) -> Seq<EventView> {
        releases.map_values(
            |x: ReleaseRecord|
                EventView {
                    source: self.issue_source(),
                    created_at: x.created_at,
                    summary: "Released by "@ + x.node@ + " ("@ + x.reason.word() + ")"@,
                },
        )
    }

    /// The events of attempts.
    pub open spec fn attempt_events(&self, attempts: Seq<AttemptRecord>) -> Seq<EventView> {
        attempts.map_values(
            |a: AttemptRecord|
                EventView {
                    source: self.issue_source(),
                    created_at: a.created_at,
                    summary: "Attempt "@ + a.branch@ + " -> "@ + a.metric.text@,
                },
        )
    }

    /// The events of decisions.
    pub open spec fn decision_events(prs: Seq<PullRequestState>) -> Seq<EventView>
        decreases prs.len(),
    {
        if prs.len() == 0 {
            Seq::empty()
        } else {
            let rest = Self::decision_events(prs.drop_last());
            match prs.last().decision {
                Some(d) => rest.push(
                    EventView {
                        source: "PR #"@ + text::decimal(prs.last().pr.number as nat),
                        created_at: d.created_at,
                        summary: "Decision "@ + d.outcome.word(),
                    },
                ),
                None => rest,
            }
        }
    }

    /// All events of the thesis.
    pub open spec fn events(&self) -> Seq<EventView> {
        self.claim_events(self.active_claims@) + self.release_events(self.releases@)
            + self.attempt_events(self.attempts@) + Self::decision_events(self.pull_requests@)
    }

    fn source(&self) -> (r: String)
        ensures
            r@ == self.issue_source(),
    {
        let mut r = "issue #".to_owned();
        r.append(text::number(self.issue.number).as_str());
        r
    }

    /// All events of the thesis.
    pub fn activity_events(&self) -> (r: Vec<ActivityEvent>)
        ensures
            event_views(r@) == self.events(),
    {
        let mut events: Vec<ActivityEvent> = Vec::new();
        let ghost claims = self.claim_events(self.active_claims@);
        let ghost releases = self.release_events(self.releases@);
        let ghost attempts = self.attempt_events(self.attempts@);
        let mut i: usize = 0;
        assert(event_views(events@) =~= claims.take(0));
        while i < self.active_claims.len()
            invariant
                i <= self.active_claims.len(),
                claims == self.claim_events(self.active_claims@),
                event_views(events@) =~= claims.take(i as int),
            decreases self.active_claims.len() - i,
        {
            let ghost before = events@;
            let mut summary = "Claimed by ".to_owned();
            summary.append(self.active_claims[i].node.as_str());
            events.push(
                ActivityEvent {
                    source: self.source(),
                    created_at: self.active_claims[i].created_at,
                    summary,
                },
            );
            assert(event_views(events@) =~= event_views(before).push(events@.last()@));
            assert(claims.take(i + 1) =~= claims.take(i as int).push(claims[i as int]));
            i = i + 1;
        }
        assert(claims.take(i as int) =~= claims);
        let mut i: usize = 0;
        assert(event_views(events@) =~= claims + releases.take(0));
        while i < self.releases.len()
            invariant
                i <= self.releases.len(),
                releases == self.release_events(self.releases@),
                event_views(events@) =~= claims + releases.take(i as int),
            decreases self.releases.len() - i,
        {
            let ghost before = events@;
            let mut summary = "Released by ".to_owned();
            summary.append(self.releases[i].node.as_str());
            summary.append(" (");
            summary.append(self.releases[i].reason.text().as_str());
            summary.append(")");
            events.push(
                ActivityEvent {
                    source: self.source(),
                    created_at: self.releases[i].created_at,
                    summary,
                },
            );
            assert(event_views(events@) =~= event_views(before).push(events@.last()@));
            assert(releases.take(i + 1) =~= releases.take(i as int).push(releases[i as int]));
            i = i + 1;
        }
        assert(releases.take(i as int) =~= releases);
        let mut i: usize = 0;
        assert(event_views(events@) =~= claims + releases + attempts.take(0));
        while i < self.attempts.len()
            invariant
                i <= self.attempts.len(),
                attempts == self.attempt_events(self.attempts@),
                event_views(events@) =~= claims + releases + attempts.take(i as int),
            decreases self.attempts.len() - i,
        {
            let ghost before = events@;
            let mut summary = "Attempt ".to_owned();
            summary.append(self.attempts[i].branch.as_str());
            summary.append(" -> ");
            summary.append(self.attempts[i].metric.text.as_str());
            events.push(
                ActivityEvent {
                    source: self.source(),
                    created_at: self.attempts[i].created_at,
                    summary,
                },
            );
            assert(event_views(events@) =~= event_views(before).push(events@.last()@));
            assert(attempts.take(i + 1) =~= attempts.take(i as int).push(attempts[i as int]));
            i = i + 1;
        }
        assert(attempts.take(i as int) =~= attempts);
        let ghost first = claims + releases + attempts;
        let mut i: usize = 0;
        assert(self.pull_requests@.take(0) =~= Seq::<PullRequestState>::empty());
        assert(event_views(events@) =~= first + Self::decision_events(
            self.pull_requests@.take(0),
        ));
        while i < self.pull_requests.len()
            invariant
                i <= self.pull_requests.len(),
                event_views(events@) =~= first + Self::decision_events(
                    self.pull_requests@.take(i as int),
                ),
            decreases self.pull_requests.len() - i,
        {
            let ghost before = events@;
            assert(self.pull_requests@.take(i + 1).drop_last() =~= self.pull_requests@.take(
                i as int,
            ));
            match &self.pull_requests[i].decision {
                Some(d) => {
                    let mut source = "PR #".to_owned();
                    source.append(text::number(self.pull_requests[i].pr.number).as_str());
                    let mut summary = "Decision ".to_owned();
                    summary.append(d.outcome.text().as_str());
                    events.push(ActivityEvent { source, created_at: d.created_at, summary });
                    assert(event_views(events@) =~= event_views(before).push(events@.last()@));
                },
                None => {},
            }
            i = i + 1;
        }
        assert(self.pull_requests@.take(i as int) =~= self.pull_requests@);
        events
    }

    /// The thesis waits to be worked on.
    pub open spec fn queued(&self, auto_approve: bool) -> bool {
        self.issue.state@ == "OPEN"@ && (self.phase == ThesisPhase::Approved || (!auto_approve
            && self.phase == ThesisPhase::Submitted && !self.maintainer_rejected))
    }
}

/// How many theses wait to be worked on.
pub open spec fn queue_length(theses: Seq<ThesisState>, auto_approve: bool) -> nat
    decreases theses.len(),
{
    if theses.len() == 0 {
        0
    } else {
        queue_length(theses.drop_last(), auto_approve) + (if theses.last().queued(auto_approve) {
            1nat
        } else {
            0nat
        })
    }
}

proof fn lemma_queue_length(theses: Seq<ThesisState>, auto_approve: bool)
    ensures
        queue_length(theses, auto_approve) <= theses.len(),
    decreases theses.len(),
{
    if theses.len() > 0 {
        lemma_queue_length(theses.drop_last(), auto_approve);
    }
}

/// How many theses wait to be worked on.
pub fn count_queue_depth(theses: &Vec<ThesisState>, auto_approve: bool) -> (r: usize)
    ensures
        r == queue_length(theses@, auto_approve),
{
    let mut n: usize = 0;
    let mut i: usize = 0;
    assert(theses@.take(0).len() == 0);
    while i < theses.len()
        invariant
            i <= theses.len(),
            n <= i,
            n == queue_length(theses@.take(i as int), auto_approve),
        decreases theses.len() - i,
    {
        assert(theses@.take(i + 1).drop_last() =~= theses@.take(i as int));
        let t = &theses[i];
        if text::same(t.issue.state.as_str(), "OPEN") && (t.phase == ThesisPhase::Approved || (
        !auto_approve && t.phase == ThesisPhase::Submitted && !t.maintainer_rejected)) {
            n = n + 1;
        }
        i = i + 1;
    }
    assert(theses@.take(i as int) =~= theses@);
    n
}

/// A finding belongs behind a later one; of two at one time the one whose message comes later in
/// the dictionary. One without a time belongs behind all that have one.
impl Ranked for AuditFinding {
    open spec fn after(self, other: Self) -> bool {
        match (self.created_at, other.created_at) {
            (Some(a), Some(b)) => a.earlier(b) || (a == b && text_set::precedes(
                other.message@,
                self.message@,
            )),
            (Some(_), None) => false,
            (None, Some(_)) => true,
            (None, None) => text_set::precedes(other.message@, self.message@),
        }
    }

    proof fn one_way(a: Self, b: Self) {
        text_set::lemma_precedes_total(a.message@, b.message@);
    }

    proof fn carries_over(a: Self, b: Self, c: Self) {
        let (x, y, z) = (a.message@, b.message@, c.message@);
        text_set::lemma_precedes_total(x, y);
        text_set::lemma_precedes_total(y, z);
        text_set::lemma_precedes_total(x, z);
        if text_set::precedes(z, x) {
            if text_set::precedes(x, y) {
                text_set::lemma_precedes_transitive(z, x, y);
            }
        }
    }

    fn is_after(&self, other: &Self) -> (r: bool) {
        match (&self.created_at, &other.created_at) {
            (Some(a), Some(b)) => a.before(b) || (*a == *b && text_set::before(
                other.message.as_str(),
                self.message.as_str(),
            )),
            (Some(_), None) => false,
            (None, Some(_)) => true,
            (None, None) => text_set::before(other.message.as_str(), self.message.as_str()),
        }
    }
}

impl Ranked for ThesisState {
    open spec fn after(self, other: Self) -> bool {
        self.issue.number > other.issue.number
    }

    proof fn one_way(a: Self, b: Self) {
    }

    proof fn carries_over(a: Self, b: Self, c: Self) {
    }

    fn is_after(&self, other: &Self) -> (r: bool) {
        self.issue.number > other.issue.number
    }
}

/// The nodes of the claims on theses.
pub open spec fn claiming_nodes(theses: Seq<ThesisState>) -> Seq<Seq<char>>
    decreases theses.len(),
{
    if theses.len() == 0 {
        Seq::empty()
    } else {
        claiming_nodes(theses.drop_last()) + theses.last().active_claims@.map_values(
            |c: ClaimRecord| c.node@,
        )
    }
}

/// The metrics of the accepted attempts at theses.
pub open spec fn accepted_metrics(theses: Seq<ThesisState>) -> Seq<Metric>
    decreases theses.len(),
{
    if theses.len() == 0 {
        Seq::empty()
    } else {
        let rest = accepted_metrics(theses.drop_last());
        match theses.last().accepted() {
            Some(m) => rest.push(m),
            None => rest,
        }
    }
}

/// The events of theses.
pub open spec fn all_events(theses: Seq<ThesisState>) -> Seq<EventView>
    decreases theses.len(),
{
    if theses.len() == 0 {
        Seq::empty()
    } else {
        all_events(theses.drop_last()) + theses.last().events()
    }
}

/// The findings on candidates.
pub open spec fn candidate_findings(prs: Seq<PullRequestState>) -> Seq<AuditFinding>
    decreases prs.len(),
{
    if prs.len() == 0 {
        Seq::empty()
    } else {
        candidate_findings(prs.drop_last()) + prs.last().findings@
    }
}

/// The findings on theses.
pub open spec fn thesis_findings(theses: Seq<ThesisState>) -> Seq<AuditFinding>
    decreases theses.len(),
{
    if theses.len() == 0 {
        Seq::empty()
    } else {
        thesis_findings(theses.drop_last()) + theses.last().findings@
    }
}

/// The invalidated branches of theses.
pub open spec fn invalidated_branches(theses: Seq<ThesisState>) -> Seq<Seq<char>>
    decreases theses.len(),
{
    if theses.len() == 0 {
        Seq::empty()
    } else {
        invalidated_branches(theses.drop_last()) + text::texts(
            theses.last().invalidated_attempt_branches@,
        )
    }
}

/// How many events a state shows.
pub const RECENT_EVENTS: usize = 50;

proof fn lemma_set_of_sum(a: Seq<Seq<char>>, b: Seq<Seq<char>>, i: int)
    requires
        0 <= i < b.len(),
    ensures
        text_set::set_of(a + b.take(i + 1)) == text_set::with(
            text_set::set_of(a + b.take(i)),
            b[i],
        ),
{
    assert((a + b.take(i + 1)).drop_last() =~= a + b.take(i));
    assert((a + b.take(i + 1)).last() == b[i]);
}

fn collect_nodes(theses: &Vec<ThesisState>) -> (r: Vec<String>)
    ensures
        text::texts(r@) == text_set::set_of(claiming_nodes(theses@)),
{
    let mut r: Vec<String> = Vec::new();
    let mut i: usize = 0;
    assert(theses@.take(0).len() == 0);
    assert(text::texts(r@) =~= Seq::<Seq<char>>::empty());
    while i < theses.len()
        invariant
            i <= theses.len(),
            text::texts(r@) == text_set::set_of(claiming_nodes(theses@.take(i as int))),
        decreases theses.len() - i,
    {
        let ghost a = claiming_nodes(theses@.take(i as int));
        let claims = &theses[i].active_claims;
        let ghost b = claims@.map_values(|c: ClaimRecord| c.node@);
        let mut k: usize = 0;
        assert(a + b.take(0) =~= a);
        while k < claims.len()
            invariant
                k <= claims.len(),
                b == claims@.map_values(|c: ClaimRecord| c.node@),
                text::texts(r@) == text_set::set_of(a + b.take(k as int)),
            decreases claims.len() - k,
        {
            proof {
                lemma_set_of_sum(a, b, k as int);
            }
            text_set::insert(&mut r, claims[k].node.clone());
            k = k + 1;
        }
        proof {
            assert(b.take(k as int) =~= b);
            assert(theses@.take(i + 1).drop_last() =~= theses@.take(i as int));
            assert(theses@.take(i + 1).last() == theses@[i as int]);
        }
        i = i + 1;
    }
    assert(theses@.take(i as int) =~= theses@);
    r
}

fn collect_invalidated(theses: &Vec<ThesisState>) -> (r: Vec<String>)
    ensures
        text::texts(r@) == text_set::set_of(invalidated_branches(theses@)),
{
    let mut r: Vec<String> = Vec::new();
    let mut i: usize = 0;
    assert(theses@.take(0).len() == 0);
    assert(text::texts(r@) =~= Seq::<Seq<char>>::empty());
    while i < theses.len()
        invariant
            i <= theses.len(),
            text::texts(r@) == text_set::set_of(invalidated_branches(theses@.take(i as int))),
        decreases theses.len() - i,
    {
        let ghost a = invalidated_branches(theses@.take(i as int));
        let branches = &theses[i].invalidated_attempt_branches;
        let ghost b = text::texts(branches@);
        let mut k: usize = 0;
        assert(a + b.take(0) =~= a);
        while k < branches.len()
            invariant
                k <= branches.len(),
                b == text::texts(branches@),
                text::texts(r@) == text_set::set_of(a + b.take(k as int)),
            decreases branches.len() - k,
        {
            proof {
                lemma_set_of_sum(a, b, k as int);
            }
            text_set::insert(&mut r, branches[k].clone());
            k = k + 1;
        }
        proof {
            assert(b.take(k as int) =~= b);
            assert(theses@.take(i + 1).drop_last() =~= theses@.take(i as int));
            assert(theses@.take(i + 1).last() == theses@[i as int]);
        }
        i = i + 1;
    }
    assert(theses@.take(i as int) =~= theses@);
    r
}

fn best_accepted(theses: &Vec<ThesisState>, direction: MetricDirection) -> (r: Option<Metric>)
    ensures
        r == best(accepted_metrics(theses@), direction),
{
    let mut current: Option<Metric> = None;
    let mut i: usize = 0;
    assert(theses@.take(0).len() == 0);
    while i < theses.len()
        invariant
            i <= theses.len(),
            current == best(accepted_metrics(theses@.take(i as int)), direction),
        decreases theses.len() - i,
    {
        proof {
            assert(theses@.take(i + 1).drop_last() =~= theses@.take(i as int));
            assert(theses@.take(i + 1).last() == theses@[i as int]);
        }
        match theses[i].accepted_metric() {
            Some(m) => {
                proof {
                    let rest = accepted_metrics(theses@.take(i as int));
                    assert(rest.push(m).drop_last() =~= rest);
                }
                current = Some(select_metric(current, m, direction));
            },
            None => {},
        }
        i = i + 1;
    }
    assert(theses@.take(i as int) =~= theses@);
    current
}

fn collect_events(theses: &Vec<ThesisState>) -> (r: Vec<ActivityEvent>)
    ensures
        event_views(r@) == all_events(theses@),
{
    let mut r: Vec<ActivityEvent> = Vec::new();
    let mut i: usize = 0;
    assert(theses@.take(0).len() == 0);
    assert(event_views(r@) =~= Seq::<EventView>::empty());
    while i < theses.len()
        invariant
            i <= theses.len(),
            event_views(r@) == all_events(theses@.take(i as int)),
        decreases theses.len() - i,
    {
        let ghost before = r@;
        let mut events: Vec<ActivityEvent> = theses[i].activity_events();
        let ghost more = events@;
        r.append(&mut events);
        proof {
            assert(theses@.take(i + 1).drop_last() =~= theses@.take(i as int));
            assert(theses@.take(i + 1).last() == theses@[i as int]);
            assert(event_views(r@) =~= event_views(before) + event_views(more));
        }
        i = i + 1;
    }
    assert(theses@.take(i as int) =~= theses@);
    r
}

fn collect_findings(prs: &Vec<PullRequestState>, theses: &Vec<ThesisState>) -> (r: Vec<AuditFinding>)
    ensures
        r@ == candidate_findings(prs@) + thesis_findings(theses@),
{
    let mut r: Vec<AuditFinding> = Vec::new();
    let mut i: usize = 0;
    assert(prs@.take(0).len() == 0);
    while i < prs.len()
        invariant
            i <= prs.len(),
            r@ =~= candidate_findings(prs@.take(i as int)),
        decreases prs.len() - i,
    {
        let mut more: Vec<AuditFinding> = prs[i].findings.clone();
        proof {
            assert(more@ =~= prs@[i as int].findings@);
            assert(prs@.take(i + 1).drop_last() =~= prs@.take(i as int));
            assert(prs@.take(i + 1).last() == prs@[i as int]);
        }
        r.append(&mut more);
        i = i + 1;
    }
    assert(prs@.take(i as int) =~= prs@);
    let ghost first = candidate_findings(prs@);
    let mut i: usize = 0;
    assert(theses@.take(0).len() == 0);
    assert(first + thesis_findings(theses@.take(0)) =~= first);
    while i < theses.len()
        invariant
            i <= theses.len(),
            r@ =~= first + thesis_findings(theses@.take(i as int)),
        decreases theses.len() - i,
    {
        let mut more: Vec<AuditFinding> = theses[i].findings.clone();
        proof {
            assert(more@ =~= theses@[i as int].findings@);
            assert(theses@.take(i + 1).drop_last() =~= theses@.take(i as int));
            assert(theses@.take(i + 1).last() == theses@[i as int]);
        }
        r.append(&mut more);
        i = i + 1;
    }
    assert(theses@.take(i as int) =~= theses@);
    r
}

/// The comments that were fetched for the issue or candidate at place `i`: those under its number,
/// the first time that the number comes.
pub open spec fn fetched(numbers: Seq<u64>, i: int, map: Map<u64, Vec<IssueComment>>) -> Seq<
    IssueComment,
> {
    if map.contains_key(numbers[i]) && !numbers.take(i).contains(numbers[i]) {
        map[numbers[i]]@
    } else {
        Seq::empty()
    }
}

/// The map without the numbers that have come.
pub open spec fn without_numbers(map: Map<u64, Vec<IssueComment>>, numbers: Seq<u64>) -> Map<
    u64,
    Vec<IssueComment>,
>
    decreases numbers.len(),
{
    if numbers.len() == 0 {
        map
    } else {
        without_numbers(map, numbers.drop_last()).remove(numbers.last())
    }
}

proof fn lemma_without_numbers(map: Map<u64, Vec<IssueComment>>, numbers: Seq<u64>, n: u64)
    ensures
        without_numbers(map, numbers).contains_key(n) <==> map.contains_key(n) && !numbers.contains(n),
        without_numbers(map, numbers).contains_key(n) ==> without_numbers(map, numbers)[n] == map[n],
    decreases numbers.len(),
{
    if numbers.len() > 0 {
        let rest = numbers.drop_last();
        lemma_without_numbers(map, rest, n);
        assert(numbers[numbers.len() - 1] == numbers.last());
        if numbers.contains(n) {
            let k = choose|k: int| 0 <= k < numbers.len() && numbers[k] == n;
            if k < rest.len() {
                assert(rest[k] == n);
            }
        }
        if rest.contains(n) {
            let k = choose|k: int| 0 <= k < rest.len() && rest[k] == n;
            assert(numbers[k] == n);
        }
    }
}

/// The numbers of pull requests.
pub open spec fn pr_numbers(prs: Seq<PullRequest>) -> Seq<u64> {
    prs.map_values(|p: PullRequest| p.number)
}

/// The numbers of issues.
pub open spec fn issue_numbers(issues: Seq<Issue>) -> Seq<u64> {
    issues.map_values(|i: Issue| i.number)
}

fn derive_candidates(
    prs: Vec<PullRequest>,
    pr_comments: &mut HashMap<u64, Vec<IssueComment>>,
    config: &ProtocolConfig,
) -> (r: Result<Vec<PullRequestState>, String>)
    ensures
        final(pr_comments)@ == without_numbers(old(pr_comments)@, pr_numbers(prs@)),
        r matches Ok(v) && v.len() == prs.len() && forall|i: int|
            0 <= i < v.len() ==> (#[trigger] v@[i]).derived(
                prs@[i],
                fetched(pr_numbers(prs@), i, old(pr_comments)@),
                *config,
            ),
{
    broadcast use vstd::std_specs::hash::group_hash_axioms;

    let ghost all = prs@;
    let ghost numbers = pr_numbers(all);
    let ghost map = pr_comments@;
    let mut rest: Vec<PullRequest> = prs;
    let mut v: Vec<PullRequestState> = Vec::new();
    assert(all.skip(0) =~= all);
    assert(numbers.take(0) =~= Seq::<u64>::empty());
    while rest.len() > 0
        invariant
            numbers == pr_numbers(all),
            v.len() + rest.len() == all.len(),
            rest@ == all.skip(v.len() as int),
            pr_comments@ == without_numbers(map, numbers.take(v.len() as int)),
            forall|i: int|
                0 <= i < v.len() ==> (#[trigger] v@[i]).derived(
                    all[i],
                    fetched(numbers, i, map),
                    *config,
                ),
        decreases rest.len(),
    {
        let ghost i = v.len() as int;
        let pr = rest.remove(0);
        proof {
            assert(pr == all[i]) by {
                assert(all.skip(i)[0] == all[i]);
            }
            assert(numbers[i] == pr.number);
            assert(rest@ =~= all.skip(i + 1));
            lemma_without_numbers(map, numbers.take(i), pr.number);
            assert(numbers.take(i + 1).drop_last() =~= numbers.take(i));
        }
        let posted: Vec<IssueComment> = match pr_comments.remove(&pr.number) {
            Some(c) => c,
            None => Vec::new(),
        };
        proof {
            assert(posted@ =~= fetched(numbers, i, map));
            assert(pr_comments@ =~= without_numbers(map, numbers.take(i + 1)));
        }
        match PullRequestState::derive(pr, posted, config) {
            Ok(s) => {
                v.push(s);
            },
            Err(e) => {
                return Err(e);
            },
        }
    }
    assert(numbers.take(v.len() as int) =~= numbers);
    Ok(v)
}

fn derive_theses(
    issues: Vec<Issue>,
    issue_comments: &mut HashMap<u64, Vec<IssueComment>>,
    pr_states: &Vec<PullRequestState>,
    config: &ProtocolConfig,
    now: Timestamp,
) -> (r: Result<Vec<ThesisState>, String>)
    ensures
        final(issue_comments)@ == without_numbers(old(issue_comments)@, issue_numbers(issues@)),
        r matches Ok(v) && v.len() == issues.len() && forall|i: int|
            0 <= i < v.len() ==> (#[trigger] v@[i]).derived(
                issues@[i],
                fetched(issue_numbers(issues@), i, old(issue_comments)@),
                pull_request_views(pr_states@),
                *config,
                now,
            ),
{
    broadcast use vstd::std_specs::hash::group_hash_axioms;

    let ghost all = issues@;
    let ghost numbers = issue_numbers(all);
    let ghost map = issue_comments@;
    let mut rest: Vec<Issue> = issues;
    let mut v: Vec<ThesisState> = Vec::new();
    assert(all.skip(0) =~= all);
    assert(numbers.take(0) =~= Seq::<u64>::empty());
    while rest.len() > 0
        invariant
            numbers == issue_numbers(all),
            v.len() + rest.len() == all.len(),
            rest@ == all.skip(v.len() as int),
            issue_comments@ == without_numbers(map, numbers.take(v.len() as int)),
            forall|i: int|
                0 <= i < v.len() ==> (#[trigger] v@[i]).derived(
                    all[i],
                    fetched(numbers, i, map),
                    pull_request_views(pr_states@),
                    *config,
                    now,
                ),
        decreases rest.len(),
    {
        let ghost i = v.len() as int;
        let issue = rest.remove(0);
        proof {
            assert(issue == all[i]) by {
                assert(all.skip(i)[0] == all[i]);
            }
            assert(numbers[i] == issue.number);
            assert(rest@ =~= all.skip(i + 1));
            lemma_without_numbers(map, numbers.take(i), issue.number);
            assert(numbers.take(i + 1).drop_last() =~= numbers.take(i));
        }
        let posted: Vec<IssueComment> = match issue_comments.remove(&issue.number) {
            Some(c) => c,
            None => Vec::new(),
        };
        proof {
            assert(posted@ =~= fetched(numbers, i, map));
            assert(issue_comments@ =~= without_numbers(map, numbers.take(i + 1)));
        }
        match ThesisState::derive(issue, posted, pr_states, config, now) {
            Ok(s) => {
                v.push(s);
            },
            Err(e) => {
                return Err(e);
            },
        }
    }
    assert(numbers.take(v.len() as int) =~= numbers);
    Ok(v)
}

impl RepositoryState {
    /// The state is made of the states of candidates and theses: the theses by number, the nodes
    /// that hold claims, the length of the queue, the best accepted metric, the latest events and
    /// all findings.
    pub open spec fn gathers(
        &self,
        prs: Seq<PullRequestState>,
        theses: Seq<ThesisState>,
        config: ProtocolConfig,
    ) -> bool {
        &&& self.theses@ == sort::sorted(theses)
        &&& self.pull_request_count == prs.len()
        &&& text::texts(self.active_nodes@) == text_set::set_of(claiming_nodes(self.theses@))
        &&& self.queue_depth == queue_length(self.theses@, config.auto_approve)
        &&& self.current_best_accepted_metric == best(
            accepted_metrics(self.theses@),
            config.metric_direction,
        )
        &&& text::texts(self.invalidated_attempt_branches@) == text_set::set_of(
            invalidated_branches(self.theses@),
        )
        &&& self.audit_findings@ == sort::sorted(
            candidate_findings(prs) + thesis_findings(self.theses@),
        )
        &&& exists|events: Seq<ActivityEvent>|
            event_views(events) == all_events(self.theses@) && self.recent_events@
                == latest_events(#[trigger] sort::sorted(events))
    }

    /// The state comes from the issues, the candidates and the comments that were fetched.
    pub open spec fn derived(
        &self,
        issues: Seq<Issue>,
        prs: Seq<PullRequest>,
        issue_comments: Map<u64, Vec<IssueComment>>,
        pr_comments: Map<u64, Vec<IssueComment>>,
        config: ProtocolConfig,
        now: Timestamp,
    ) -> bool {
        exists|candidates: Seq<PullRequestState>, theses: Seq<ThesisState>|
            {
                &&& #[trigger] self.gathers(candidates, theses, config)
                &&& candidates.len() == prs.len()
                &&& theses.len() == issues.len()
                &&& forall|i: int|
                    0 <= i < prs.len() ==> (#[trigger] candidates[i]).derived(
                        prs[i],
                        fetched(pr_numbers(prs), i, pr_comments),
                        config,
                    )
                &&& forall|i: int|
                    0 <= i < issues.len() ==> (#[trigger] theses[i]).derived(
                        issues[i],
                        fetched(issue_numbers(issues), i, issue_comments),
                        pull_request_views(candidates),
                        config,
                        now,
                    )
            }
    }

    /// The state of a project, as what was fetched of it gives it.
    pub fn derive_from_fetched(
        issues: Vec<Issue>,
        prs: Vec<PullRequest>,
        issue_comments: &mut HashMap<u64, Vec<IssueComment>>,
        pr_comments: &mut HashMap<u64, Vec<IssueComment>>,
        config: &ProtocolConfig,
        now: Timestamp,
    ) -> (r: Result<Self, String>)
        ensures
            final(pr_comments)@ == without_numbers(old(pr_comments)@, pr_numbers(prs@)),
            final(issue_comments)@ == without_numbers(old(issue_comments)@, issue_numbers(issues@)),
            r matches Ok(state) && state.derived(
                issues@,
                prs@,
                old(issue_comments)@,
                old(pr_comments)@,
                *config,
                now,
            ),
    {
        let pull_request_count: usize = prs.len();
        let pr_states: Vec<PullRequestState> = match derive_candidates(prs, pr_comments, config) {
            Ok(v) => v,
            Err(e) => {
                return Err(e);
            },
        };
        let derived: Vec<ThesisState> = match derive_theses(
            issues,
            issue_comments,
            &pr_states,
            config,
            now,
        ) {
            Ok(v) => v,
            Err(e) => {
                return Err(e);
            },
        };
        let ghost all = derived@;
        let theses: Vec<ThesisState> = sort::sort(derived);
        let active_nodes: Vec<String> = collect_nodes(&theses);
        let queue_depth: usize = count_queue_depth(&theses, config.auto_approve);
        let current_best_accepted_metric = best_accepted(&theses, config.metric_direction);
        let events: Vec<ActivityEvent> = collect_events(&theses);
        let ghost listed = events@;
        let mut recent_events: Vec<ActivityEvent> = sort::sort(events);
        recent_events.truncate(RECENT_EVENTS);
        let findings: Vec<AuditFinding> = collect_findings(&pr_states, &theses);
        let audit_findings: Vec<AuditFinding> = sort::sort(findings);
        let invalidated_attempt_branches: Vec<String> = collect_invalidated(&theses);
        let state = RepositoryState {
            theses,
            pull_request_count,
            active_nodes,
            queue_depth,
            current_best_accepted_metric,
            invalidated_attempt_branches,
            recent_events,
            audit_findings,
        };
        proof {
            assert(event_views(listed) == all_events(state.theses@));
            assert(state.recent_events@ =~= latest_events(sort::sorted(listed)));
            assert(state.gathers(pr_states@, all, *config));
        }
        Ok(state)
    }

    /// The place of a thesis.
    pub open spec fn thesis_at(theses: Seq<ThesisState>, number: u64, i: int) -> Option<int>
        decreases theses.len() - i,
    {
        if i >= theses.len() {
            None
        } else if theses[i].issue.number == number {
            Some(i)
        } else {
            Self::thesis_at(theses, number, i + 1)
        }
    }

    /// The thesis with this number.
    pub fn get_thesis(&self, issue_number: u64) -> (r: Option<&ThesisState>)
        ensures
            match Self::thesis_at(self.theses@, issue_number, 0) {
                Some(i) => r == Some(&self.theses@[i]),
                None => r is None,
            },
    {
        let mut i: usize = 0;
        while i < self.theses.len()
            invariant
                i <= self.theses.len(),
                Self::thesis_at(self.theses@, issue_number, 0) == Self::thesis_at(
                    self.theses@,
                    issue_number,
                    i as int,
                ),
            decreases self.theses.len() - i,
        {
            if self.theses[i].issue.number == issue_number {
                return Some(&self.theses[i]);
            }
            i = i + 1;
        }
        None
    }

    /// The place of a candidate among those of a thesis.
    pub open spec fn candidate_at(prs: Seq<PullRequestState>, number: u64, i: int) -> Option<int>
        decreases prs.len() - i,
    {
        if i >= prs.len() {
            None
        } else if prs[i].pr.number == number {
            Some(i)
        } else {
            Self::candidate_at(prs, number, i + 1)
        }
    }

    /// The place of the first thesis that has a candidate with this number, and the place of the
    /// candidate.
    pub open spec fn thesis_of_candidate(theses: Seq<ThesisState>, number: u64, i: int) -> Option<
        (int, int),
    >
        decreases theses.len() - i,
    {
        if i >= theses.len() {
            None
        } else {
            match Self::candidate_at(theses[i].pull_requests@, number, 0) {
                Some(k) => Some((i, k)),
                None => Self::thesis_of_candidate(theses, number, i + 1),
            }
        }
    }

    /// The candidate with this number and the thesis that it is for.
    pub fn get_pull_request(&self, pr_number: u64) -> (r: Option<(&ThesisState, &PullRequestState)>)
        ensures
            match Self::thesis_of_candidate(self.theses@, pr_number, 0) {
                Some((i, k)) => r == Some(
                    (&self.theses@[i], &self.theses@[i].pull_requests@[k]),
                ),
                None => r is None,
            },
    {
        let mut i: usize = 0;
        while i < self.theses.len()
            invariant
                i <= self.theses.len(),
                Self::thesis_of_candidate(self.theses@, pr_number, 0) == Self::thesis_of_candidate(
                    self.theses@,
                    pr_number,
                    i as int,
                ),
            decreases self.theses.len() - i,
        {
            let prs = &self.theses[i].pull_requests;
            let mut k: usize = 0;
            while k < prs.len()
                invariant
                    i < self.theses.len(),
                    k <= prs.len(),
                    *prs == self.theses@[i as int].pull_requests,
                    Self::thesis_of_candidate(self.theses@, pr_number, 0)
                        == Self::thesis_of_candidate(self.theses@, pr_number, i as int),
                    Self::candidate_at(prs@, pr_number, 0) == Self::candidate_at(
                        prs@,
                        pr_number,
                        k as int,
                    ),
                decreases prs.len() - k,
            {
                if prs[k].pr.number == pr_number {
                    return Some((&self.theses[i], &prs[k]));
                }
                k = k + 1;
            }
            i = i + 1;
        }
        None
    }
}

/// The first of sorted events, as many as a state shows.
pub open spec fn latest_events(events: Seq<ActivityEvent>) -> Seq<ActivityEvent> {
    if events.len() <= RECENT_EVENTS {
        events
    } else {
        events.take(RECENT_EVENTS as int)
    }
}

} // verus!
