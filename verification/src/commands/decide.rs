//! Decides candidates, and carries a decision out.
use crate::commands::duties;
use crate::commands::duties::MAX_SUBMIT_REJECTIONS;
use crate::comments;
use crate::comments::{CommentView, Observation, Outcome, ProtocolComment, ReleaseReason};
use crate::config::{MetricDirection, ProtocolConfig};
use crate::metric;
use crate::metric::Metric;
use crate::state::{AttemptRecord, PullRequestState, ReviewRecord, ThesisState};
use crate::text;
use crate::time::Timestamp;
use vstd::prelude::*;
use vstd::string::*;

verus! {

/// A candidate that was decided.
#[derive(Debug)]
pub struct DecideOutput {
    pub pr: u64,
    pub thesis: u64,
    pub outcome: Outcome,
    pub confirmations: u64,
}

impl DecideOutput {
    /// The output as it is shown.
    pub fn text(&self) -> (r: String)
        ensures
            r@ == "PR #"@ + text::decimal(self.pr as nat) + " on thesis #"@ + text::decimal(
                self.thesis as nat,
            ) + " decided as `"@ + self.outcome.word() + "`."@,
    {
        let mut r = text::say("PR #", self.pr, " on thesis #");
        r.append(text::number(self.thesis).as_str());
        r.append(" decided as `");
        r.append(self.outcome.text().as_str());
        r.append("`.");
        r
    }
}

/// The candidate is ready to be decided.
pub open spec fn decidable(config: ProtocolConfig, pr: PullRequestState, required: nat) -> bool {
    &&& pr.pr.state@ == "OPEN"@
    &&& pr.policy_pass
    &&& pr.decision is None
    &&& !pr.maintainer_rejected
    &&& config.auto_approve || pr.maintainer_approved
    &&& required == 0 || pr.reviews@.len() >= required
}

/// Whether a candidate is ready to be decided.
pub fn is_pr_decidable(
    config: &ProtocolConfig,
    pr_state: &PullRequestState,
    required_reviews: usize,
) -> (r: bool)
    ensures
        r == decidable(*config, *pr_state, required_reviews as nat),
{
    if !text::same(pr_state.pr.state.as_str(), "OPEN") || !pr_state.policy_pass
        || pr_state.decision.is_some() {
        return false;
    }
    if pr_state.maintainer_rejected {
        return false;
    }
    if !config.auto_approve && !pr_state.maintainer_approved {
        return false;
    }
    if required_reviews > 0 && pr_state.reviews.len() < required_reviews {
        return false;
    }
    true
}

/// What the maintainer has to do with a candidate.
#[derive(Debug)]
pub struct MaintainerStep {
    /// Who is to be assigned to the candidate.
    pub assign: Option<String>,
    /// Why the candidate is not decided.
    pub refusal: Option<String>,
}

/// Why the maintainer's word, or the want of it, keeps a candidate from being decided.
pub open spec fn maintainer_refusal(pr: PullRequestState, number: u64) -> Option<Seq<char>> {
    let n = text::decimal(number as nat);
    if pr.maintainer_rejected {
        Some(
            "PR #"@ + n
                + " was rejected by the maintainer; do not decide it until a maintainer comments `/approve` or the PR is replaced"@,
        )
    } else if !pr.maintainer_approved {
        Some("PR #"@ + n + " requires maintainer `/approve` before deciding"@)
    } else {
        None
    }
}

/// Where theses and candidates are not approved by themselves, nothing is decided without the
/// maintainer's approval or against a rejection, and what is asked before a decision is the same.
pub proof fn the_maintainer_has_the_last_word(
    config: ProtocolConfig,
    pr: PullRequestState,
    required: nat,
    number: u64,
)
    requires
        !config.auto_approve,
    ensures
        decidable(config, pr, required) ==> pr.maintainer_approved && !pr.maintainer_rejected,
        maintainer_refusal(pr, number) is None <==> pr.maintainer_approved
            && !pr.maintainer_rejected,
{
}

/// Asks for the maintainer's word where the project wants it.
pub fn maintainer_step(
    config: &ProtocolConfig,
    pr_state: &PullRequestState,
    pr_number: u64,
    dry_run: bool,
) -> (r: Result<MaintainerStep, String>)
    ensures
        if config.auto_approve {
            r matches Ok(s) && s.assign is None && s.refusal is None
        } else {
            match config.maintainer_github_login {
                None => r matches Err(e) && e@
                    == "maintainer_github_login is required in PROGRAM.md"@,
                Some(m) => r matches Ok(s) && comments::option_text(s.refusal)
                    == maintainer_refusal(*pr_state, pr_number) && s.assign == (if !dry_run
                    && maintainer_refusal(*pr_state, pr_number) is Some {
                    Some(m)
                } else {
                    None
                }),
            }
        },
{
    if config.auto_approve {
        return Ok(MaintainerStep { assign: None, refusal: None });
    }
    let maintainer = config.maintainer_login()?;
    let assign = if !dry_run && (!pr_state.maintainer_approved || pr_state.maintainer_rejected) {
        Some(maintainer)
    } else {
        None
    };
    let refusal = if pr_state.maintainer_rejected {
        Some(
            text::say(
                "PR #",
                pr_number,
                " was rejected by the maintainer; do not decide it until a maintainer comments `/approve` or the PR is replaced",
            ),
        )
    } else if !pr_state.maintainer_approved {
        Some(text::say("PR #", pr_number, " requires maintainer `/approve` before deciding"))
    } else {
        None
    };
    Ok(MaintainerStep { assign, refusal })
}

/// The place of the first attempt on a branch.
pub open spec fn attempt_at(attempts: Seq<AttemptRecord>, branch: Seq<char>, i: int) -> Option<int>
    decreases attempts.len() - i,
{
    if i >= attempts.len() {
        None
    } else if attempts[i].branch@ == branch {
        Some(i)
    } else {
        attempt_at(attempts, branch, i + 1)
    }
}

/// What is said where a candidate has no attempt.
pub open spec fn no_attempt(branch: Seq<char>) -> Seq<char> {
    "candidate PR branch `"@ + branch + "` has no recorded attempt"@
}

/// The attempt that a candidate is for.
pub fn attempt_of<'a>(thesis: &'a ThesisState, branch: &str) -> (r: Result<
    &'a AttemptRecord,
    String,
>)
    ensures
        match attempt_at(thesis.attempts@, branch@, 0) {
            Some(i) => r == Ok::<&AttemptRecord, String>(&thesis.attempts@[i]),
            None => r matches Err(e) && e@ == no_attempt(branch@),
        },
{
    let mut i: usize = 0;
    while i < thesis.attempts.len()
        invariant
            i <= thesis.attempts.len(),
            attempt_at(thesis.attempts@, branch@, 0) == attempt_at(
                thesis.attempts@,
                branch@,
                i as int,
            ),
        decreases thesis.attempts.len() - i,
    {
        if text::same(thesis.attempts[i].branch.as_str(), branch) {
            return Ok(&thesis.attempts[i]);
        }
        i = i + 1;
    }
    let mut m = "candidate PR branch `".to_owned();
    m.append(branch);
    m.append("` has no recorded attempt");
    Err(m)
}

/// A metric is as good as the best that was accepted.
pub open spec fn holds_up(m: Metric, best: Option<Metric>, direction: MetricDirection) -> bool {
    match best {
        None => true,
        Some(b) => match direction {
            MetricDirection::HigherIsBetter => metric::at_most(b.bits, m.bits),
            MetricDirection::LowerIsBetter => metric::at_most(m.bits, b.bits),
        },
    }
}

/// What is decided of an attempt without reviews. `beats` says that the attempt's metric beats
/// its baseline by more than the tolerance.
pub open spec fn verdict_alone(
    a: AttemptRecord,
    beats: bool,
    best: Option<Metric>,
    direction: MetricDirection,
) -> Outcome {
    if a.baseline_metric is Some && beats && holds_up(a.metric, best, direction) {
        Outcome::Accepted
    } else {
        Outcome::NonImprovement
    }
}

/// Decides a candidate without reviews: it is accepted where its attempt beats the baseline and
/// is as good as the best that was accepted so far.
pub fn decide_without_peer_review(
    config: &ProtocolConfig,
    thesis: &ThesisState,
    pr_state: &PullRequestState,
    best_accepted: &Option<Metric>,
    beats: bool,
) -> (r: Result<Outcome, String>)
    ensures
        match config.metric_tolerance {
            None => r matches Err(e) && e@ == "metric_tolerance is required in PROGRAM.md"@,
            Some(_) => match attempt_at(thesis.attempts@, pr_state.pr.head_ref_name@, 0) {
                None => r matches Err(e) && e@ == no_attempt(pr_state.pr.head_ref_name@),
                Some(i) => r == Ok::<Outcome, String>(
                    verdict_alone(
                        thesis.attempts@[i],
                        beats,
                        *best_accepted,
                        config.metric_direction,
                    ),
                ),
            },
        },
{
    let _ = config.tolerance()?;
    let attempt = attempt_of(thesis, pr_state.pr.head_ref_name.as_str())?;
    if attempt.baseline_metric.is_none() {
        return Ok(Outcome::NonImprovement);
    }
    if !beats {
        return Ok(Outcome::NonImprovement);
    }
    if let Some(best) = best_accepted {
        let meets_or_exceeds = match config.metric_direction {
            MetricDirection::HigherIsBetter => metric::is_at_most(best.bits, attempt.metric.bits),
            MetricDirection::LowerIsBetter => metric::is_at_most(attempt.metric.bits, best.bits),
        };
        if !meets_or_exceeds {
            return Ok(Outcome::NonImprovement);
        }
    }
    Ok(Outcome::Accepted)
}

/// The smaller of two numbers; what is not a number gives way.
pub open spec fn lower(a: Metric, b: Metric) -> Metric {
    if metric::not_a_number(a.bits) || metric::less(b.bits, a.bits) {
        b
    } else {
        a
    }
}

/// The larger of two numbers; what is not a number gives way.
pub open spec fn higher(a: Metric, b: Metric) -> Metric {
    if metric::not_a_number(a.bits) || metric::less(a.bits, b.bits) {
        b
    } else {
        a
    }
}

/// The smallest and the largest metric of reviews.
pub open spec fn extremes(reviews: Seq<ReviewRecord>) -> Option<(Metric, Metric)>
    decreases reviews.len(),
{
    if reviews.len() == 0 {
        None
    } else {
        let m = reviews.last().metric;
        match extremes(reviews.drop_last()) {
            None => Some((m, m)),
            Some((low, high)) => Some((lower(low, m), higher(high, m))),
        }
    }
}

/// The smallest and the largest metric of reviews. Metrics agree where these two are no farther
/// apart than the tolerance.
pub fn metric_range(reviews: &Vec<ReviewRecord>) -> (r: Option<(Metric, Metric)>)
    ensures
        r == extremes(reviews@),
{
    let mut r: Option<(Metric, Metric)> = None;
    let mut i: usize = 0;
    assert(reviews@.take(0).len() == 0);
    while i < reviews.len()
        invariant
            i <= reviews.len(),
            r == extremes(reviews@.take(i as int)),
        decreases reviews.len() - i,
    {
        proof {
            assert(reviews@.take(i + 1).drop_last() =~= reviews@.take(i as int));
            assert(reviews@.take(i + 1).last() == reviews@[i as int]);
        }
        let m = &reviews[i].metric;
        r = match r {
            None => Some((m.clone(), m.clone())),
            Some((low, high)) => {
                let low = if metric::is_nan(low.bits) || metric::is_less(m.bits, low.bits) {
                    m.clone()
                } else {
                    low
                };
                let high = if metric::is_nan(high.bits) || metric::is_less(high.bits, m.bits) {
                    m.clone()
                } else {
                    high
                };
                Some((low, high))
            },
        };
        i = i + 1;
    }
    assert(reviews@.take(i as int) =~= reviews@);
    r
}

/// Every review was made on top of the commit.
pub open spec fn all_based_on(reviews: Seq<ReviewRecord>, head: Seq<char>) -> bool {
    forall|i: int|
        0 <= i < reviews.len() ==> text::trimmed((#[trigger] reviews[i]).base_sha@)
            == text::trimmed(head)
}

/// All reviews were made in one environment.
pub open spec fn one_environment(reviews: Seq<ReviewRecord>) -> bool {
    forall|i: int, j: int|
        #![trigger reviews[i], reviews[j]]
        0 <= i < reviews.len() && 0 <= j < reviews.len() ==> comments::option_text(
            reviews[i].env_sha,
        ) == comments::option_text(reviews[j].env_sha)
}

/// The review says nothing of the candidate.
pub open spec fn is_void(o: Observation) -> bool {
    o == Observation::Crashed || o == Observation::InfraFailure
}

/// How many reviews say nothing of the candidate.
pub open spec fn void_reviews(reviews: Seq<ReviewRecord>) -> nat
    decreases reviews.len(),
{
    if reviews.len() == 0 {
        0
    } else {
        void_reviews(reviews.drop_last()) + (if is_void(reviews.last().observation) {
            1nat
        } else {
            0nat
        })
    }
}

/// All reviews saw the same.
pub open spec fn unanimous(reviews: Seq<ReviewRecord>, o: Observation) -> bool {
    forall|i: int| 0 <= i < reviews.len() ==> (#[trigger] reviews[i]).observation == o
}

/// What reviews decide. `agree` says that their metrics are no farther apart than the tolerance.
pub open spec fn verdict_of_reviews(reviews: Seq<ReviewRecord>, head: Seq<char>, agree: bool) -> Outcome {
    if !all_based_on(reviews, head) {
        Outcome::Stale
    } else if !one_environment(reviews) {
        Outcome::Disagreement
    } else if void_reviews(reviews) * 2 >= reviews.len() {
        Outcome::InfraFailure
    } else if unanimous(reviews, Observation::Improved) && agree {
        Outcome::Accepted
    } else if unanimous(reviews, Observation::NoImprovement) && agree {
        Outcome::NonImprovement
    } else {
        Outcome::Disagreement
    }
}

/// What is said where reviews are missing.
pub open spec fn too_few_reviews(number: u64, reviews: nat, required: u64) -> Seq<char> {
    "PR #"@ + text::decimal(number as nat) + " only has "@ + text::decimal(reviews)
        + " review records, but "@ + text::decimal(required as nat) + " are required"@
}

/// Goes ahead only where a candidate has its reviews.
pub fn require_reviews(config: &ProtocolConfig, pr_state: &PullRequestState) -> (r: Result<
    (),
    String,
>)
    ensures
        if pr_state.reviews@.len() < config.required_confirmations {
            r matches Err(e) && e@ == too_few_reviews(
                pr_state.pr.number,
                pr_state.reviews@.len(),
                config.required_confirmations,
            )
        } else {
            r is Ok
        },
{
    let count: u64 = pr_state.reviews.len() as u64;
    if count < config.required_confirmations {
        let mut m = text::say("PR #", pr_state.pr.number, " only has ");
        m.append(text::number(count).as_str());
        m.append(" review records, but ");
        m.append(text::number(config.required_confirmations).as_str());
        m.append(" are required");
        return Err(m);
    }
    Ok(())
}

fn are_based_on(reviews: &Vec<ReviewRecord>, head: &str) -> (r: bool)
    ensures
        r == all_based_on(reviews@, head@),
{
    let top = text::trim(head);
    let mut i: usize = 0;
    while i < reviews.len()
        invariant
            i <= reviews.len(),
            top@ == text::trimmed(head@),
            forall|j: int|
                0 <= j < i ==> text::trimmed((#[trigger] reviews@[j]).base_sha@) == top@,
        decreases reviews.len() - i,
    {
        if !text::same(text::trim(reviews[i].base_sha.as_str()), top) {
            assert(text::trimmed(reviews@[i as int].base_sha@) != top@);
            return false;
        }
        i = i + 1;
    }
    true
}

/// Whether two texts that may be missing are the same.
pub fn same_option(a: &Option<String>, b: &Option<String>) -> (r: bool)
    ensures
        r == (comments::option_text(*a) == comments::option_text(*b)),
{
    match (a, b) {
        (None, None) => true,
        (Some(x), Some(y)) => text::same(x.as_str(), y.as_str()),
        _ => false,
    }
}

fn in_one_environment(reviews: &Vec<ReviewRecord>) -> (r: bool)
    ensures
        r == one_environment(reviews@),
{
    let mut i: usize = 1;
    while i < reviews.len()
        invariant
            1 <= i,
            reviews.len() >= 1 ==> i <= reviews.len(),
            forall|j: int|
                0 <= j < i && j < reviews.len() ==> comments::option_text(
                    (#[trigger] reviews@[j]).env_sha,
                ) == comments::option_text(reviews@[0].env_sha),
        decreases reviews.len() - i,
    {
        if !same_option(&reviews[0].env_sha, &reviews[i].env_sha) {
            assert(comments::option_text(reviews@[i as int].env_sha) != comments::option_text(
                reviews@[0].env_sha,
            ));
            return false;
        }
        i = i + 1;
    }
    true
}

fn count_void(reviews: &Vec<ReviewRecord>) -> (r: usize)
    ensures
        r == void_reviews(reviews@),
        r <= reviews.len(),
{
    let mut n: usize = 0;
    let mut i: usize = 0;
    assert(reviews@.take(0).len() == 0);
    while i < reviews.len()
        invariant
            n <= i <= reviews.len(),
            n == void_reviews(reviews@.take(i as int)),
        decreases reviews.len() - i,
    {
        proof {
            assert(reviews@.take(i + 1).drop_last() =~= reviews@.take(i as int));
            assert(reviews@.take(i + 1).last() == reviews@[i as int]);
        }
        if reviews[i].observation == Observation::Crashed || reviews[i].observation
            == Observation::InfraFailure {
            n = n + 1;
        }
        i = i + 1;
    }
    assert(reviews@.take(i as int) =~= reviews@);
    n
}

fn all_observations(reviews: &Vec<ReviewRecord>, observation: Observation) -> (r: bool)
    ensures
        r == unanimous(reviews@, observation),
{
    let mut i: usize = 0;
    while i < reviews.len()
        invariant
            i <= reviews.len(),
            forall|j: int| 0 <= j < i ==> (#[trigger] reviews@[j]).observation == observation,
        decreases reviews.len() - i,
    {
        if reviews[i].observation != observation {
            assert(reviews@[i as int].observation != observation);
            return false;
        }
        i = i + 1;
    }
    true
}

/// Decides a candidate by its reviews. The main head is that of the default branch; `agree` says
/// that the metrics of the reviews are no farther apart than the tolerance.
pub fn decide_with_peer_review(
    config: &ProtocolConfig,
    pr_state: &PullRequestState,
    main_head: Result<String, String>,
    agree: bool,
) -> (r: Result<Outcome, String>)
    ensures
        if pr_state.reviews@.len() < config.required_confirmations {
            r matches Err(e) && e@ == too_few_reviews(
                pr_state.pr.number,
                pr_state.reviews@.len(),
                config.required_confirmations,
            )
        } else if config.metric_tolerance is None {
            r matches Err(e) && e@ == "metric_tolerance is required in PROGRAM.md"@
        } else {
            match main_head {
                Err(e) => r == Err::<Outcome, String>(e),
                Ok(head) => r == Ok::<Outcome, String>(
                    verdict_of_reviews(pr_state.reviews@, head@, agree),
                ),
            }
        },
{
    require_reviews(config, pr_state)?;
    let _ = config.tolerance()?;
    let main_head = main_head?;
    let reviews = &pr_state.reviews;
    if !are_based_on(reviews, main_head.as_str()) {
        return Ok(Outcome::Stale);
    }
    if !in_one_environment(reviews) {
        return Ok(Outcome::Disagreement);
    }
    let void: usize = count_void(reviews);
    if void >= reviews.len() - void {
        return Ok(Outcome::InfraFailure);
    }
    if all_observations(reviews, Observation::Improved) && agree {
        return Ok(Outcome::Accepted);
    }
    if all_observations(reviews, Observation::NoImprovement) && agree {
        return Ok(Outcome::NonImprovement);
    }
    Ok(Outcome::Disagreement)
}

/// A candidate is accepted by reviews only where more than half of them say something, all of
/// them saw an improvement in one environment on top of the main head, and their metrics agree.
pub proof fn accepted_by_reviews_means_agreement(
    reviews: Seq<ReviewRecord>,
    head: Seq<char>,
    agree: bool,
)
    ensures
        verdict_of_reviews(reviews, head, agree) == Outcome::Accepted <==> (reviews.len() > 0
            && all_based_on(reviews, head) && one_environment(reviews) && unanimous(
            reviews,
            Observation::Improved,
        ) && agree),
{
    if unanimous(reviews, Observation::Improved) {
        lemma_none_void(reviews);
    }
}

proof fn lemma_none_void(reviews: Seq<ReviewRecord>)
    requires
        unanimous(reviews, Observation::Improved),
    ensures
        void_reviews(reviews) == 0,
    decreases reviews.len(),
{
    if reviews.len() > 0 {
        assert forall|i: int| 0 <= i < reviews.drop_last().len() implies (
        #[trigger] reviews.drop_last()[i]).observation == Observation::Improved by {
            assert(reviews.drop_last()[i] == reviews[i]);
        }
        lemma_none_void(reviews.drop_last());
        assert(reviews[reviews.len() - 1].observation == Observation::Improved);
    }
}

/// How a decision was carried out.
#[derive(Clone, Copy, Debug, PartialEq, Eq, Structural)]
pub struct DecisionExecuted {
    pub outcome: Outcome,
    pub confirmations: u64,
}

/// A decision that is to be carried out.
#[derive(Debug)]
pub struct Decision {
    pub pr_number: u64,
    pub thesis_number: u64,
    pub candidate_sha: String,
    pub outcome: Outcome,
    pub confirmations: u64,
    pub required_confirmations: u64,
}

/// What ends a decision: the comment on the candidate, then whether to close the candidate, then
/// whether to close the thesis. The branch of a closed candidate stays.
#[derive(Debug)]
pub struct Settlement {
    pub comment: ProtocolComment,
    pub close_candidate: bool,
    pub close_thesis: bool,
    pub executed: DecisionExecuted,
}

/// What a settlement holds.
pub struct SettlementView {
    pub comment: CommentView,
    pub close_candidate: bool,
    pub close_thesis: bool,
    pub executed: DecisionExecuted,
}

impl View for Settlement {
    type V = SettlementView;

    open spec fn view(&self) -> SettlementView {
        SettlementView {
            comment: self.comment@,
            close_candidate: self.close_candidate,
            close_thesis: self.close_thesis,
            executed: self.executed,
        }
    }
}

/// What is to be done next to carry a decision out.
#[derive(Debug)]
pub enum DecisionAction {
    /// Merge the candidate.
    Merge,
    /// Put the candidate's branch on top of the default branch.
    Rebase,
    /// Merge the candidate, now that its branch ends in this commit.
    MergeRebased { sha: String },
    /// Record the decision.
    Settle(Settlement),
}

/// What came of an action.
#[derive(Debug)]
pub enum DecisionEvent {
    Merged,
    MergeFailed,
    Rebased { sha: String },
    RebaseFailed,
}

/// How many more steps it can take until the decision is recorded. Each step leaves fewer.
pub open spec fn steps_left(a: DecisionAction) -> nat {
    match a {
        DecisionAction::Merge => 3,
        DecisionAction::Rebase => 2,
        DecisionAction::MergeRebased { .. } => 1,
        DecisionAction::Settle(_) => 0,
    }
}

impl Decision {
    /// The comment that records an outcome.
    pub open spec fn record(&self, sha: Seq<char>, outcome: Outcome, confirmations: u64) -> CommentView {
        CommentView::Decision {
            thesis: self.thesis_number,
            candidate_sha: sha,
            outcome,
            confirmations,
        }
    }

    /// The end of a decision whose candidate was merged.
    pub open spec fn merged(&self, sha: Seq<char>) -> SettlementView {
        SettlementView {
            comment: self.record(sha, self.outcome, self.confirmations),
            close_candidate: false,
            close_thesis: true,
            executed: DecisionExecuted { outcome: self.outcome, confirmations: self.confirmations },
        }
    }

    /// The end of a decision whose candidate could not be merged.
    pub open spec fn fallen_back(&self) -> SettlementView {
        SettlementView {
            comment: self.record(self.candidate_sha@, Outcome::Stale, 0),
            close_candidate: true,
            close_thesis: false,
            executed: DecisionExecuted { outcome: Outcome::Stale, confirmations: 0 },
        }
    }

    /// The end of a decision that turns a candidate down. The thesis is closed where the outcome
    /// is about the thesis, but not where a candidate without reviews is no improvement.
    pub open spec fn turned_down(&self) -> SettlementView {
        SettlementView {
            comment: self.record(self.candidate_sha@, self.outcome, self.confirmations),
            close_candidate: true,
            close_thesis: match self.outcome {
                Outcome::NonImprovement => self.required_confirmations > 0,
                Outcome::Disagreement => true,
                Outcome::PolicyRejection => true,
                _ => false,
            },
            executed: DecisionExecuted { outcome: self.outcome, confirmations: self.confirmations },
        }
    }

    /// What is done first: an accepted candidate is merged, another one is turned down.
    pub open spec fn begins(&self, r: DecisionAction) -> bool {
        if self.outcome == Outcome::Accepted {
            r is Merge
        } else {
            r matches DecisionAction::Settle(s) && s@ == self.turned_down()
        }
    }

    /// What follows an action to carry an accepted candidate out. A candidate that cannot be
    /// merged is put on top of the default branch, where there is a working copy to do so in, and
    /// merged once more; where that fails too, it is stale.
    pub open spec fn follows(
        &self,
        done: DecisionAction,
        event: DecisionEvent,
        has_copy: bool,
        r: DecisionAction,
    ) -> bool {
        match (done, event) {
            (DecisionAction::Settle(_), _) => r == done,
            (DecisionAction::Merge, DecisionEvent::Merged) => r matches DecisionAction::Settle(s)
                && s@ == self.merged(self.candidate_sha@),
            (DecisionAction::MergeRebased { sha }, DecisionEvent::Merged) => r matches
                DecisionAction::Settle(s) && s@ == self.merged(sha@),
            (DecisionAction::Merge, DecisionEvent::MergeFailed) => if has_copy {
                r is Rebase
            } else {
                r matches DecisionAction::Settle(s) && s@ == self.fallen_back()
            },
            (DecisionAction::Rebase, DecisionEvent::Rebased { sha }) => r
                == (DecisionAction::MergeRebased { sha }),
            _ => r matches DecisionAction::Settle(s) && s@ == self.fallen_back(),
        }
    }

    fn begin(&self) -> (r: DecisionAction)
        ensures
            self.begins(r),
    {
        if self.outcome == Outcome::Accepted {
            return DecisionAction::Merge;
        }
        let close_thesis = match self.outcome {
            Outcome::NonImprovement => self.required_confirmations > 0,
            Outcome::Disagreement => true,
            Outcome::PolicyRejection => true,
            _ => false,
        };
        DecisionAction::Settle(
            Settlement {
                comment: self.comment(
                    self.candidate_sha.clone(),
                    self.outcome,
                    self.confirmations,
                ),
                close_candidate: true,
                close_thesis,
                executed: DecisionExecuted {
                    outcome: self.outcome,
                    confirmations: self.confirmations,
                },
            },
        )
    }

    fn next(&self, done: DecisionAction, event: DecisionEvent, has_copy: bool) -> (r: DecisionAction)
        ensures
            self.follows(done, event, has_copy, r),
    {
        match (done, event) {
            (DecisionAction::Settle(s), _) => DecisionAction::Settle(s),
            (DecisionAction::Merge, DecisionEvent::Merged) => self.settle_merged(
                self.candidate_sha.clone(),
            ),
            (DecisionAction::MergeRebased { sha }, DecisionEvent::Merged) => self.settle_merged(
                sha,
            ),
            (DecisionAction::Merge, DecisionEvent::MergeFailed) => if has_copy {
                DecisionAction::Rebase
            } else {
                self.settle_stale()
            },
            (DecisionAction::Rebase, DecisionEvent::Rebased { sha }) => {
                DecisionAction::MergeRebased { sha }
            },
            _ => self.settle_stale(),
        }
    }

    fn comment(&self, sha: String, outcome: Outcome, confirmations: u64) -> (r: ProtocolComment)
        ensures
            r@ == self.record(sha@, outcome, confirmations),
    {
        ProtocolComment::Decision {
            thesis: self.thesis_number,
            candidate_sha: sha,
            outcome,
            confirmations,
        }
    }

    fn settle_merged(&self, sha: String) -> (r: DecisionAction)
        ensures
            r matches DecisionAction::Settle(s) && s@ == self.merged(sha@),
    {
        DecisionAction::Settle(
            Settlement {
                comment: self.comment(sha, self.outcome, self.confirmations),
                close_candidate: false,
                close_thesis: true,
                executed: DecisionExecuted {
                    outcome: self.outcome,
                    confirmations: self.confirmations,
                },
            },
        )
    }

    fn settle_stale(&self) -> (r: DecisionAction)
        ensures
            r matches DecisionAction::Settle(s) && s@ == self.fallen_back(),
    {
        DecisionAction::Settle(
            Settlement {
                comment: self.comment(self.candidate_sha.clone(), Outcome::Stale, 0),
                close_candidate: true,
                close_thesis: false,
                executed: DecisionExecuted { outcome: Outcome::Stale, confirmations: 0 },
            },
        )
    }
}

/// What to do to carry a decision out: first, and then after each action by what came of it, until
/// the decision is to be recorded. `has_copy` says that there is a working copy.
pub fn execute_decision(
    decision: &Decision,
    so_far: Option<(DecisionAction, DecisionEvent)>,
    has_copy: bool,
) -> (r: DecisionAction)
    ensures
        match so_far {
            None => decision.begins(r),
            Some((done, event)) => decision.follows(done, event, has_copy, r) && (done is Settle
                || steps_left(r) < steps_left(done)),
        },
{
    match so_far {
        None => decision.begin(),
        Some((done, event)) => decision.next(done, event, has_copy),
    }
}

/// A settlement says in its comment what was carried out.
pub open spec fn tells_what_was_done(d: Decision, s: SettlementView) -> bool {
    match s.comment {
        CommentView::Decision { thesis, outcome, confirmations, .. } => thesis == d.thesis_number
            && outcome == s.executed.outcome && confirmations == s.executed.confirmations,
        _ => false,
    }
}

/// However a decision ends, its comment says what was carried out; a candidate that was not
/// merged is closed, and one that was merged closes its thesis.
pub proof fn settlements_are_sound(d: Decision, sha: Seq<char>)
    ensures
        tells_what_was_done(d, d.merged(sha)),
        tells_what_was_done(d, d.fallen_back()),
        tells_what_was_done(d, d.turned_down()),
        !d.merged(sha).close_candidate && d.merged(sha).close_thesis,
        d.fallen_back().close_candidate && !d.fallen_back().close_thesis,
        d.turned_down().close_candidate,
        d.fallen_back().executed.outcome != Outcome::Accepted,
{
}

/// How many candidates of a thesis were turned down since a time.
pub fn count_prior_rejections(thesis: &ThesisState, claim_start: Option<Timestamp>) -> (r: usize)
    ensures
        r == duties::rejections(thesis.pull_requests@, claim_start),
        r <= thesis.pull_requests.len(),
{
    duties::count_rejections(&thesis.pull_requests, claim_start)
}

/// When the first claim on a thesis was made.
pub open spec fn first_claim_start(thesis: ThesisState) -> Option<Timestamp> {
    if thesis.active_claims@.len() > 0 {
        Some(thesis.active_claims@[0].created_at)
    } else {
        None
    }
}

/// The claim is released after a candidate that was decided without reviews was turned down, where
/// that has happened too often.
pub open spec fn releases_claim(
    config: ProtocolConfig,
    thesis: ThesisState,
    outcome: Outcome,
    dry_run: bool,
) -> bool {
    &&& !dry_run
    &&& config.required_confirmations == 0
    &&& outcome == Outcome::NonImprovement || outcome == Outcome::Stale
    &&& duties::rejections(thesis.pull_requests@, first_claim_start(thesis)) + 1
        >= MAX_SUBMIT_REJECTIONS
    &&& thesis.active_claims@.len() > 0
}

/// The comment that releases the claim on a thesis whose candidates were turned down too often.
pub fn release_after_rejections(
    config: &ProtocolConfig,
    thesis: &ThesisState,
    outcome: Outcome,
    dry_run: bool,
) -> (r: Option<ProtocolComment>)
    ensures
        if releases_claim(*config, *thesis, outcome, dry_run) {
            r matches Some(c) && c@ == (CommentView::Release {
                thesis: thesis.issue.number,
                node: thesis.active_claims@[0].node@,
                reason: ReleaseReason::NoImprovement,
            })
        } else {
            r is None
        },
{
    if dry_run || config.required_confirmations != 0 || !(outcome == Outcome::NonImprovement
        || outcome == Outcome::Stale) {
        return None;
    }
    if thesis.active_claims.len() == 0 {
        return None;
    }
    let prior: usize = count_prior_rejections(thesis, Some(thesis.active_claims[0].created_at));
    if prior < MAX_SUBMIT_REJECTIONS - 1 {
        return None;
    }
    Some(
        ProtocolComment::Release {
            thesis: thesis.issue.number,
            node: thesis.active_claims[0].node.clone(),
            reason: ReleaseReason::NoImprovement,
        },
    )
}

/// How many confirmations a decision counts.
pub fn confirmations(config: &ProtocolConfig, pr_state: &PullRequestState) -> (r: u64)
    ensures
        r == (if config.required_confirmations == 0 {
            0
        } else {
            pr_state.reviews@.len()
        }),
{
    if config.required_confirmations == 0 {
        0
    } else {
        pr_state.reviews.len() as u64
    }
}

} // verus!
