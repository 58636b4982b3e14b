//! The work at a thesis: from the experiment to what is recorded of it.
use crate::agent;
use crate::agent::{ExperimentResult, RecoveredMetric};
use crate::commands;
use crate::commands::submit;
use crate::comments;
use crate::comments::{CommentView, Observation, ProtocolComment, ReleaseReason};
use crate::config::MetricDirection;
use crate::editable_surface;
use crate::metric;
use crate::metric::Metric;
use crate::paths;
use crate::state::{AttemptRecord, ThesisState};
use crate::text;
use vstd::prelude::*;
use vstd::string::*;

verus! {

/// What a worker has to know.
#[derive(Debug)]
pub struct WorkerContext {
    pub issue_number: u64,
    pub thesis_title: String,
    pub thesis_body: String,
    pub repo_root: String,
    pub node_id: String,
    pub agent_command: String,
    pub default_branch: String,
    pub editable_globs: Vec<String>,
    pub protected_globs: Vec<String>,
    pub metric_direction: MetricDirection,
}

/// How the work at a thesis ended.
#[derive(Debug)]
pub enum WorkerOutcome {
    Improved {
        issue_number: u64,
        branch: String,
        worktree_path: String,
        result: ExperimentResult,
    },
    NoImprovement { issue_number: u64, worktree_path: String, result: ExperimentResult },
    Failed { issue_number: u64, worktree_path: String, reason: String },
}

impl WorkerOutcome {
    /// The number of the thesis.
    pub open spec fn issue(&self) -> u64 {
        match *self {
            WorkerOutcome::Improved { issue_number, .. } => issue_number,
            WorkerOutcome::NoImprovement { issue_number, .. } => issue_number,
            WorkerOutcome::Failed { issue_number, .. } => issue_number,
        }
    }

    /// The directory of the work.
    pub open spec fn place(&self) -> Seq<char> {
        match *self {
            WorkerOutcome::Improved { worktree_path, .. } => worktree_path@,
            WorkerOutcome::NoImprovement { worktree_path, .. } => worktree_path@,
            WorkerOutcome::Failed { worktree_path, .. } => worktree_path@,
        }
    }

    /// The number of the thesis.
    pub fn issue_number(&self) -> (r: u64)
        ensures
            r == self.issue(),
    {
        match self {
            WorkerOutcome::Improved { issue_number, .. } => *issue_number,
            WorkerOutcome::NoImprovement { issue_number, .. } => *issue_number,
            WorkerOutcome::Failed { issue_number, .. } => *issue_number,
        }
    }

    /// The directory of the work.
    pub fn worktree_path(&self) -> (r: &str)
        ensures
            r@ == self.place(),
    {
        match self {
            WorkerOutcome::Improved { worktree_path, .. } => worktree_path.as_str(),
            WorkerOutcome::NoImprovement { worktree_path, .. } => worktree_path.as_str(),
            WorkerOutcome::Failed { worktree_path, .. } => worktree_path.as_str(),
        }
    }
}

/// One who works at a thesis.
#[derive(Debug)]
pub struct ThesisWorker {
    pub ctx: WorkerContext,
    pub worktree_path: String,
    pub branch: String,
    pub prior_attempts: String,
}

/// A result of an experiment: its metrics, and what it says.
pub struct ResultView {
    pub metric: Metric,
    pub baseline: Option<Metric>,
    pub observation: Seq<char>,
    pub summary: Seq<char>,
}

impl View for ExperimentResult {
    type V = ResultView;

    open spec fn view(&self) -> ResultView {
        ResultView {
            metric: self.metric,
            baseline: self.baseline,
            observation: self.observation@,
            summary: self.summary@,
        }
    }
}

/// A metric is better than its baseline.
pub open spec fn beats_baseline(m: Metric, baseline: Metric, direction: MetricDirection) -> bool {
    match direction {
        MetricDirection::HigherIsBetter => metric::less(baseline.bits, m.bits),
        MetricDirection::LowerIsBetter => metric::less(m.bits, baseline.bits),
    }
}

/// The result that a recovered metric stands for: an improvement where it is better than its
/// baseline.
pub open spec fn classified(r: RecoveredMetric, direction: MetricDirection) -> ResultView {
    ResultView {
        metric: r.metric,
        baseline: r.baseline,
        observation: match r.baseline {
            Some(b) => if beats_baseline(r.metric, b, direction) {
                "improved"@
            } else {
                "no_improvement"@
            },
            None => "no_improvement"@,
        },
        summary: r.summary@,
    }
}

/// The result that a recovered metric stands for.
pub fn classify_recovered(recovered: RecoveredMetric, direction: MetricDirection) -> (r:
    ExperimentResult)
    ensures
        r@ == classified(recovered, direction),
{
    let improved = match &recovered.baseline {
        Some(baseline) => match direction {
            MetricDirection::HigherIsBetter => metric::is_less(
                baseline.bits,
                recovered.metric.bits,
            ),
            MetricDirection::LowerIsBetter => metric::is_less(
                recovered.metric.bits,
                baseline.bits,
            ),
        },
        None => false,
    };
    let observation = if improved {
        "improved".to_owned()
    } else {
        "no_improvement".to_owned()
    };
    ExperimentResult {
        metric: recovered.metric,
        baseline: recovered.baseline,
        observation,
        summary: recovered.summary,
    }
}

/// The observation that a word stands for, or that there is none.
pub fn parse_observation(observation: &str) -> (r: Result<Observation, String>)
    ensures
        match Observation::of_word(observation@) {
            Some(o) => r == Ok::<Observation, String>(o),
            None => r matches Err(e) && e@ == "invalid observation: "@ + observation@,
        },
{
    match Observation::from_text(observation) {
        Some(o) => Ok(o),
        None => {
            let mut m = "invalid observation: ".to_owned();
            m.append(observation);
            Err(m)
        },
    }
}

/// What is done next to have the result of an experiment.
#[derive(Debug)]
pub enum ExperimentAction {
    /// Run the agent.
    RunAgent,
    /// Look for a metric in the logs.
    ReadLogs,
    /// Make a directory of the default branch.
    MakeBaseline,
    /// Run the harness in both directories, and remove that of the default branch.
    RunHarness,
    /// Be done.
    Finish { result: Option<ExperimentResult> },
    /// Give up.
    Fail { error: String },
}

/// What came of it.
#[derive(Debug)]
pub enum ExperimentEvent {
    /// It gave nothing, or there is nothing to give.
    Nothing,
    /// The agent's own report.
    Reported { result: ExperimentResult },
    /// A metric without a report.
    Recovered { metric: RecoveredMetric },
    /// It failed.
    Failed { error: String },
}

/// The action ends the experiment with this result.
pub open spec fn finishes(a: ExperimentAction, r: Option<ResultView>) -> bool {
    match a {
        ExperimentAction::Finish { result: Some(x) } => r == Some(x@),
        ExperimentAction::Finish { result: None } => r is None,
        _ => false,
    }
}

/// How many more things are tried at most. Each step leaves fewer.
pub open spec fn tries_left(a: ExperimentAction) -> nat {
    match a {
        ExperimentAction::RunAgent => 4,
        ExperimentAction::ReadLogs => 3,
        ExperimentAction::MakeBaseline => 2,
        ExperimentAction::RunHarness => 1,
        _ => 0,
    }
}

/// What publishes an improvement.
#[derive(Debug)]
pub struct Publication {
    pub title: String,
    pub body: String,
}

/// What records a result: the comment, and what publishes the improvement where it is one.
#[derive(Debug)]
pub struct RecordPlan {
    pub comment: ProtocolComment,
    pub publication: Option<Publication>,
}

/// How far the work at a thesis went.
#[derive(Debug)]
pub enum Stage {
    SetupFailed { error: String },
    ExperimentFailed { error: String },
    NoResult,
    RecordingFailed { error: String },
    Recorded { result: ExperimentResult },
}

/// How the work at a thesis ends: what came of it, and why the claim is released, if it is.
#[derive(Debug)]
pub struct Conclusion {
    pub outcome: WorkerOutcome,
    pub release: Option<ReleaseReason>,
}

/// Arguments of commands.
pub open spec fn lists(v: Seq<Vec<String>>) -> Seq<Seq<Seq<char>>> {
    v.map_values(|a: Vec<String>| text::texts(a@))
}

/// The arguments that stage what a pattern matches.
pub open spec fn add_command(glob: Seq<char>) -> Seq<Seq<char>> {
    seq!["add"@, glob]
}

/// The arguments that unstage what a pattern matches.
pub open spec fn reset_command(glob: Seq<char>) -> Seq<Seq<char>> {
    seq!["reset"@, "HEAD"@, "--"@, glob]
}

fn put_adds(r: &mut Vec<Vec<String>>, globs: &Vec<String>)
    ensures
        lists(final(r)@) == lists(old(r)@) + text::texts(globs@).map_values(
            |g: Seq<char>| add_command(g),
        ),
{
    let ghost start = lists(r@);
    let ghost all = text::texts(globs@).map_values(|g: Seq<char>| add_command(g));
    let mut i: usize = 0;
    assert(lists(r@) =~= start + all.take(0));
    while i < globs.len()
        invariant
            i <= globs.len(),
            all == text::texts(globs@).map_values(|g: Seq<char>| add_command(g)),
            lists(r@) == start + all.take(i as int),
        decreases globs.len() - i,
    {
        let args = text::owned(&["add", globs[i].as_str()]);
        let ghost before = r@;
        proof {
            assert(text::texts(args@) =~= add_command(globs@[i as int]@));
            assert(all[i as int] == add_command(text::texts(globs@)[i as int]));
            assert(text::texts(globs@)[i as int] == globs@[i as int]@);
        }
        r.push(args);
        proof {
            assert(lists(r@) =~= lists(before).push(text::texts(args@)));
            assert(lists(r@) =~= start + all.take(i + 1));
        }
        i = i + 1;
    }
    assert(all.take(i as int) =~= all);
}

fn put_resets(r: &mut Vec<Vec<String>>, globs: &Vec<String>)
    ensures
        lists(final(r)@) == lists(old(r)@) + text::texts(globs@).map_values(
            |g: Seq<char>| reset_command(g),
        ),
{
    let ghost start = lists(r@);
    let ghost all = text::texts(globs@).map_values(|g: Seq<char>| reset_command(g));
    let mut i: usize = 0;
    assert(lists(r@) =~= start + all.take(0));
    while i < globs.len()
        invariant
            i <= globs.len(),
            all == text::texts(globs@).map_values(|g: Seq<char>| reset_command(g)),
            lists(r@) == start + all.take(i as int),
        decreases globs.len() - i,
    {
        let args = text::owned(&["reset", "HEAD", "--", globs[i].as_str()]);
        let ghost before = r@;
        proof {
            assert(text::texts(args@) =~= reset_command(globs@[i as int]@));
            assert(all[i as int] == reset_command(text::texts(globs@)[i as int]));
            assert(text::texts(globs@)[i as int] == globs@[i as int]@);
        }
        r.push(args);
        proof {
            assert(lists(r@) =~= lists(before).push(text::texts(args@)));
            assert(lists(r@) =~= start + all.take(i + 1));
        }
        i = i + 1;
    }
    assert(all.take(i as int) =~= all);
}

impl ThesisWorker {
    /// The worker works on the thesis's branch, in the thesis's directory.
    pub open spec fn is_placed(&self) -> bool {
        &&& self.branch@ == commands::branch_of(self.ctx.issue_number, self.ctx.thesis_title@)
        &&& self.worktree_path@ == commands::worktree_of(
            self.ctx.repo_root@,
            self.ctx.issue_number,
            self.ctx.thesis_title@,
        )
    }

    /// One who works at a thesis.
    pub fn new(ctx: WorkerContext, prior_attempts: String) -> (r: Self)
        ensures
            r.ctx == ctx,
            r.prior_attempts == prior_attempts,
            r.is_placed(),
    {
        let branch = commands::thesis_branch(ctx.issue_number, ctx.thesis_title.as_str());
        let worktree_path = commands::thesis_worktree_path(
            ctx.repo_root.as_str(),
            ctx.issue_number,
            ctx.thesis_title.as_str(),
        );
        ThesisWorker { ctx, worktree_path, branch, prior_attempts }
    }

    /// The number of the thesis.
    pub fn issue_number(&self) -> (r: u64)
        ensures
            r == self.ctx.issue_number,
    {
        self.ctx.issue_number
    }

    /// The directory of the work.
    pub fn worktree_path(&self) -> (r: &str)
        ensures
            r@ == self.worktree_path@,
    {
        self.worktree_path.as_str()
    }

    /// The branch of the work.
    pub fn branch(&self) -> (r: &str)
        ensures
            r@ == self.branch@,
    {
        self.branch.as_str()
    }

    /// What the agent is told of the thesis.
    pub fn thesis_context(&self) -> (r: String)
        ensures
            r@ == agent::thesis_context(
                self.ctx.thesis_title@,
                self.ctx.thesis_body@,
                self.prior_attempts@,
            ),
    {
        agent::write_thesis_context(
            self.ctx.thesis_title.as_str(),
            self.ctx.thesis_body.as_str(),
            self.prior_attempts.as_str(),
        )
    }

    /// The description of the candidate that publishes an improvement.
    pub open spec fn described(&self, r: ResultView) -> Seq<char> {
        "References #"@ + text::decimal(self.ctx.issue_number as nat) + "\n\nMetric: "@
            + r.metric.text@ + "\nBaseline: "@ + (match r.baseline {
            Some(b) => b.text@,
            None => "N/A (recovered from logs)"@,
        }) + "\nSummary: "@ + r.summary
    }

    /// What follows an action and what came of it. The agent's own report counts; without one a
    /// metric from the logs does, and without that one from direct runs of the harness.
    pub fn run_experiment(&self, done: ExperimentAction, event: ExperimentEvent) -> (r:
        ExperimentAction)
        ensures
            match done {
                ExperimentAction::RunAgent => match event {
                    ExperimentEvent::Reported { result } => finishes(r, Some(result@)),
                    ExperimentEvent::Failed { error } => r == (ExperimentAction::Fail { error }),
                    _ => r is ReadLogs,
                },
                ExperimentAction::ReadLogs => match event {
                    ExperimentEvent::Recovered { metric } => finishes(
                        r,
                        Some(classified(metric, self.ctx.metric_direction)),
                    ),
                    _ => r is MakeBaseline,
                },
                ExperimentAction::MakeBaseline => match event {
                    ExperimentEvent::Failed { error } => r == (ExperimentAction::Fail { error }),
                    _ => r is RunHarness,
                },
                ExperimentAction::RunHarness => match event {
                    ExperimentEvent::Recovered { metric } => finishes(
                        r,
                        Some(classified(metric, self.ctx.metric_direction)),
                    ),
                    _ => finishes(r, None),
                },
                _ => r == done,
            },
            done is Finish || done is Fail || tries_left(r) < tries_left(done),
    {
        match done {
            ExperimentAction::RunAgent => match event {
                ExperimentEvent::Reported { result } => {
                    ExperimentAction::Finish { result: Some(result) }
                },
                ExperimentEvent::Failed { error } => ExperimentAction::Fail { error },
                _ => ExperimentAction::ReadLogs,
            },
            ExperimentAction::ReadLogs => match event {
                ExperimentEvent::Recovered { metric } => {
                    ExperimentAction::Finish { result: Some(classify_recovered(metric, self.ctx.metric_direction)) }
                },
                _ => ExperimentAction::MakeBaseline,
            },
            ExperimentAction::MakeBaseline => match event {
                ExperimentEvent::Failed { error } => ExperimentAction::Fail { error },
                _ => ExperimentAction::RunHarness,
            },
            ExperimentAction::RunHarness => match event {
                ExperimentEvent::Recovered { metric } => {
                    ExperimentAction::Finish { result: Some(classify_recovered(metric, self.ctx.metric_direction)) }
                },
                _ => ExperimentAction::Finish { result: None },
            },
            ExperimentAction::Finish { result } => ExperimentAction::Finish { result },
            ExperimentAction::Fail { error } => ExperimentAction::Fail { error },
        }
    }

    /// What records a result. An improvement is also published; its observation must be known.
    pub fn record(&self, result: &ExperimentResult) -> (r: Result<RecordPlan, String>)
        ensures
            match Observation::of_word(result.observation@) {
                None => r matches Err(e) && e@ == "invalid observation: "@ + result.observation@,
                Some(o) => r matches Ok(p) && p.comment@ == (CommentView::Attempt {
                    thesis: self.ctx.issue_number,
                    branch: self.branch@,
                    metric: result.metric@,
                    baseline_metric: comments::option_metric(result.baseline),
                    observation: o,
                    summary: result.summary@,
                    annotations: None,
                }) && (if result.observation@ == "improved"@ {
                    p.publication matches Some(x) && x.title@ == "Thesis #"@ + text::decimal(
                        self.ctx.issue_number as nat,
                    ) + ": "@ + self.ctx.thesis_title@ && x.body@ == self.described(result@)
                } else {
                    p.publication is None
                }),
            },
    {
        let observation = parse_observation(result.observation.as_str())?;
        let baseline_metric = match &result.baseline {
            Some(b) => Some(b.clone()),
            None => None,
        };
        let comment = ProtocolComment::Attempt {
            thesis: self.ctx.issue_number,
            branch: self.branch.clone(),
            metric: result.metric.clone(),
            baseline_metric,
            observation,
            summary: result.summary.clone(),
            annotations: None,
        };
        let publication = if result.is_improved() {
            let mut body = text::say("References #", self.ctx.issue_number, "\n\nMetric: ");
            body.append(result.metric.text.as_str());
            body.append("\nBaseline: ");
            match &result.baseline {
                Some(b) => body.append(b.text.as_str()),
                None => body.append("N/A (recovered from logs)"),
            }
            body.append("\nSummary: ");
            body.append(result.summary.as_str());
            let title = submit::candidate_title(
                self.ctx.issue_number,
                self.ctx.thesis_title.as_str(),
            );
            Some(Publication { title, body })
        } else {
            None
        };
        Ok(RecordPlan { comment, publication })
    }

    /// The comment that releases the claim.
    pub fn release(&self, reason: ReleaseReason) -> (r: ProtocolComment)
        ensures
            r@ == (CommentView::Release {
                thesis: self.ctx.issue_number,
                node: self.ctx.node_id@,
                reason,
            }),
    {
        ProtocolComment::Release {
            thesis: self.ctx.issue_number,
            node: self.ctx.node_id.clone(),
            reason,
        }
    }

    /// The work failed for the reason.
    pub open spec fn failed(&self, o: WorkerOutcome, reason: Seq<char>) -> bool {
        o matches WorkerOutcome::Failed { issue_number, worktree_path, reason: told }
            && issue_number == self.ctx.issue_number && worktree_path@ == self.worktree_path@
            && told@ == reason
    }

    /// How the work ends that went so far. A claim is kept only for an improvement, or where the
    /// work could not even be set up; else it is released.
    pub open spec fn ends_as(&self, stage: Stage, c: Conclusion) -> bool {
        match stage {
            Stage::SetupFailed { error } => self.failed(c.outcome, "setup failed: "@ + error@)
                && c.release is None,
            Stage::ExperimentFailed { error } => self.failed(
                c.outcome,
                "experiment failed: "@ + error@,
            ) && c.release == Some(ReleaseReason::InfraFailure),
            Stage::NoResult => self.failed(
                c.outcome,
                "agent produced no result and recovery failed"@,
            ) && c.release == Some(ReleaseReason::InfraFailure),
            Stage::RecordingFailed { error } => self.failed(
                c.outcome,
                "recording failed: "@ + error@,
            ) && c.release == Some(ReleaseReason::InfraFailure),
            Stage::Recorded { result } => if result.observation@ == "improved"@ {
                c.release is None && (c.outcome matches WorkerOutcome::Improved {
                    issue_number,
                    branch,
                    worktree_path,
                    result: kept,
                } && issue_number == self.ctx.issue_number && branch@ == self.branch@
                    && worktree_path@ == self.worktree_path@ && kept == result)
            } else if result.observation@ == "crashed"@ || result.observation@
                == "infra_failure"@ {
                self.failed(c.outcome, "experiment "@ + result.observation@) && c.release == Some(
                    ReleaseReason::InfraFailure,
                )
            } else {
                c.release == Some(ReleaseReason::NoImprovement) && (c.outcome matches
                    WorkerOutcome::NoImprovement { issue_number, worktree_path, result: kept }
                    && issue_number == self.ctx.issue_number && worktree_path@
                    == self.worktree_path@ && kept == result)
            },
        }
    }

    fn fail(&self, start: &str, error: &str, release: Option<ReleaseReason>) -> (r: Conclusion)
        ensures
            self.failed(r.outcome, start@ + error@),
            r.release == release,
    {
        let mut reason = start.to_owned();
        reason.append(error);
        Conclusion {
            outcome: WorkerOutcome::Failed {
                issue_number: self.ctx.issue_number,
                worktree_path: self.worktree_path.clone(),
                reason,
            },
            release,
        }
    }

    /// How the work ends that went so far.
    pub fn execute(&self, stage: Stage) -> (r: Conclusion)
        ensures
            self.ends_as(stage, r),
    {
        match stage {
            Stage::SetupFailed { error } => self.fail("setup failed: ", error.as_str(), None),
            Stage::ExperimentFailed { error } => self.fail(
                "experiment failed: ",
                error.as_str(),
                Some(ReleaseReason::InfraFailure),
            ),
            Stage::NoResult => Conclusion {
                outcome: WorkerOutcome::Failed {
                    issue_number: self.ctx.issue_number,
                    worktree_path: self.worktree_path.clone(),
                    reason: "agent produced no result and recovery failed".to_owned(),
                },
                release: Some(ReleaseReason::InfraFailure),
            },
            Stage::RecordingFailed { error } => self.fail(
                "recording failed: ",
                error.as_str(),
                Some(ReleaseReason::InfraFailure),
            ),
            Stage::Recorded { result } => {
                if result.is_improved() {
                    Conclusion {
                        outcome: WorkerOutcome::Improved {
                            issue_number: self.ctx.issue_number,
                            branch: self.branch.clone(),
                            worktree_path: self.worktree_path.clone(),
                            result,
                        },
                        release: None,
                    }
                } else if result.is_crashed() || result.is_infra_failure() {
                    self.fail(
                        "experiment ",
                        result.observation.as_str(),
                        Some(ReleaseReason::InfraFailure),
                    )
                } else {
                    Conclusion {
                        outcome: WorkerOutcome::NoImprovement {
                            issue_number: self.ctx.issue_number,
                            worktree_path: self.worktree_path.clone(),
                            result,
                        },
                        release: Some(ReleaseReason::NoImprovement),
                    }
                }
            },
        }
    }

    /// The arguments of the commands that stage what may be published: what the editable patterns
    /// match, without what is always protected and what the protected patterns match.
    pub fn commit_editable_surface(&self) -> (r: Vec<Vec<String>>)
        ensures
            lists(r@) == text::texts(self.ctx.editable_globs@).map_values(
                |g: Seq<char>| add_command(g),
            ) + editable_surface::always_protected().map_values(
                |g: Seq<char>| reset_command(g),
            ) + text::texts(self.ctx.protected_globs@).map_values(
                |g: Seq<char>| reset_command(g),
            ),
    {
        let mut r: Vec<Vec<String>> = Vec::new();
        let ghost a = text::texts(self.ctx.editable_globs@).map_values(
            |g: Seq<char>| add_command(g),
        );
        assert(lists(r@) =~= Seq::<Seq<Seq<char>>>::empty());
        put_adds(&mut r, &self.ctx.editable_globs);
        assert(lists(r@) =~= a);
        put_resets(&mut r, &editable_surface::protected_patterns());
        put_resets(&mut r, &self.ctx.protected_globs);
        r
    }

    /// The message of the commit that publishes an improvement.
    pub fn commit_message(&self) -> (r: String)
        ensures
            r@ == "thesis/"@ + text::decimal(self.ctx.issue_number as nat) + ": "@
                + self.ctx.thesis_title@,
    {
        let mut r = text::say("thesis/", self.ctx.issue_number, ": ");
        r.append(self.ctx.thesis_title.as_str());
        r
    }

    /// The directory of the default branch.
    pub fn baseline_path(&self) -> (r: String)
        ensures
            r@ == paths::joined(
                paths::joined(self.ctx.repo_root@, ".worktrees"@),
                text::decimal(self.ctx.issue_number as nat) + "-baseline"@,
            ),
    {
        let root = paths::join(self.ctx.repo_root.as_str(), ".worktrees");
        let mut name = text::number(self.ctx.issue_number);
        name.append("-baseline");
        paths::join(root.as_str(), name.as_str())
    }
}

/// An attempt as it is told to an agent.
pub open spec fn told_attempt(a: AttemptRecord, number: nat) -> Seq<char> {
    "### Attempt "@ + text::decimal(number) + " (branch: "@ + a.branch@ + ")\n- Metric: "@
        + a.metric.text@ + "\n- Baseline: "@ + (match a.baseline_metric {
        Some(b) => b.text@,
        None => "N/A"@,
    }) + "\n- Observation: "@ + a.observation.word() + "\n- Summary: "@ + a.summary@ + "\n\n"@
}

/// Attempts as they are told to an agent.
pub open spec fn told_attempts(attempts: Seq<AttemptRecord>) -> Seq<char>
    decreases attempts.len(),
{
    if attempts.len() == 0 {
        Seq::empty()
    } else {
        told_attempts(attempts.drop_last()) + told_attempt(attempts.last(), attempts.len())
    }
}

fn tell_attempt(a: &AttemptRecord, number: u64) -> (r: String)
    ensures
        r@ == told_attempt(*a, number as nat),
{
    let mut r = text::say("### Attempt ", number, " (branch: ");
    r.append(a.branch.as_str());
    r.append(")\n- Metric: ");
    r.append(a.metric.text.as_str());
    r.append("\n- Baseline: ");
    match &a.baseline_metric {
        Some(b) => r.append(b.text.as_str()),
        None => r.append("N/A"),
    }
    r.append("\n- Observation: ");
    r.append(a.observation.text().as_str());
    r.append("\n- Summary: ");
    r.append(a.summary.as_str());
    r.append("\n\n");
    r
}

/// The attempts at a thesis as they are told to an agent.
pub fn format_prior_attempts(thesis: &ThesisState) -> (r: String)
    ensures
        r@ == told_attempts(thesis.attempts@),
{
    let attempts = &thesis.attempts;
    let mut r = String::new();
    let mut i: usize = 0;
    assert(attempts@.take(0).len() == 0);
    assert(r@ =~= Seq::<char>::empty());
    while i < attempts.len()
        invariant
            i <= attempts.len(),
            r@ == told_attempts(attempts@.take(i as int)),
        decreases attempts.len() - i,
    {
        proof {
            assert(attempts@.take(i + 1).drop_last() =~= attempts@.take(i as int));
            assert(attempts@.take(i + 1).last() == attempts@[i as int]);
        }
        r.append(tell_attempt(&attempts[i], (i + 1) as u64).as_str());
        i = i + 1;
    }
    assert(attempts@.take(i as int) =~= attempts@);
    r
}

/// The smaller of two numbers.
pub open spec fn min(a: nat, b: nat) -> nat {
    if a <= b {
        a
    } else {
        b
    }
}

/// How many runs the cores allow: at least one, where a run takes any.
pub open spec fn runs_by_cores(budget: nat, per_run: nat) -> nat {
    if per_run == 0 {
        budget
    } else if budget / per_run >= 1 {
        budget / per_run
    } else {
        1
    }
}

/// How many runs are made at once: no more than cores, memory, the command line and the work at
/// hand allow. The memory allows at least one.
pub open spec fn parallel_runs(
    cores: nat,
    by_memory: Option<nat>,
    max_parallel: Option<nat>,
    work: nat,
) -> nat {
    let by_hardware = match by_memory {
        Some(m) => min(
            cores,
            if m >= 1 {
                m
            } else {
                1
            },
        ),
        None => min(
            cores,
            if cores >= 1 {
                cores
            } else {
                1
            },
        ),
    };
    let asked = match max_parallel {
        Some(max) => min(by_hardware, max),
        None => by_hardware,
    };
    min(asked, work)
}

/// A number that may be missing.
pub open spec fn as_nat(n: Option<usize>) -> Option<nat> {
    match n {
        Some(k) => Some(k as nat),
        None => None,
    }
}

/// How many runs are made at once. `by_memory` is how many the memory allows, where a run takes
/// any.
pub fn calculate_parallelism(
    budget_cores: usize,
    eval_cores: usize,
    by_memory: Option<usize>,
    max_parallel: Option<usize>,
    available_work: usize,
) -> (r: usize)
    ensures
        r == parallel_runs(
            runs_by_cores(budget_cores as nat, eval_cores as nat),
            as_nat(by_memory),
            as_nat(max_parallel),
            available_work as nat,
        ),
        r <= available_work,
{
    let by_cores: usize = if eval_cores == 0 {
        budget_cores
    } else {
        let share: usize = budget_cores / eval_cores;
        if share >= 1 {
            share
        } else {
            1
        }
    };
    let memory: usize = match by_memory {
        Some(m) => m,
        None => by_cores,
    };
    let memory: usize = if memory >= 1 {
        memory
    } else {
        1
    };
    let mut target: usize = if by_cores <= memory {
        by_cores
    } else {
        memory
    };
    if let Some(max) = max_parallel {
        if max < target {
            target = max;
        }
    }
    if available_work < target {
        target = available_work;
    }
    target
}

/// Where there is work, and the command line and the cores allow a run, one is made.
pub proof fn work_is_taken_up(
    budget: nat,
    per_run: nat,
    by_memory: Option<nat>,
    max_parallel: Option<nat>,
    work: nat,
)
    requires
        budget > 0,
        work > 0,
        max_parallel matches Some(max) ==> max > 0,
    ensures
        parallel_runs(runs_by_cores(budget, per_run), by_memory, max_parallel, work) >= 1,
{
}

} // verus!
