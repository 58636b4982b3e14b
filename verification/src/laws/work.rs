//! What holds of the work at a thesis, however far it went.
use crate::agent::{ExperimentResult, RecoveredMetric};
use crate::comments::{Observation, ProtocolComment, ReleaseReason};
use crate::config::{MetricDirection, ProtocolConfig};
use crate::github::{Issue, IssueComment};
use crate::laws::theses;
use crate::metric;
use crate::state::{PullRequestState, ThesisPhase, ThesisState};
use crate::time::Timestamp;
use crate::worker;
use crate::worker::{
    Conclusion, ExperimentAction, ExperimentEvent, RecordPlan, Stage, ThesisWorker, WorkerOutcome,
};
use vstd::prelude::*;

verus! {

proof fn lemma_words()
    ensures
        "improved"@ != "no_improvement"@,
        "improved"@ != "crashed"@,
        "improved"@ != "infra_failure"@,
        "no_improvement"@ != "crashed"@,
        "no_improvement"@ != "infra_failure"@,
        "crashed"@ != "infra_failure"@,
{
    reveal_strlit("improved");
    reveal_strlit("no_improvement");
    reveal_strlit("crashed");
    reveal_strlit("infra_failure");
    assert("improved"@.len() == 8);
    assert("no_improvement"@.len() == 14);
    assert("crashed"@.len() == 7);
    assert("infra_failure"@.len() == 13);
}

/// Once the work was set up, the claim on its thesis is kept exactly where the recorded observation
/// is an improvement; so a result that is none always gives the thesis back. It is given back for
/// want of an improvement exactly where a result was recorded that is neither an improvement nor a
/// failure, and for infrastructure in every other case.
pub proof fn a_claim_is_kept_only_for_an_improvement(w: ThesisWorker, stage: Stage, c: Conclusion)
    requires
        call_ensures(ThesisWorker::execute, (&w, stage), c),
        !(stage is SetupFailed),
    ensures
        c.release is None <==> (stage matches Stage::Recorded { result } && result.observation@
            == "improved"@),
        c.release == Some(ReleaseReason::NoImprovement) <==> (stage matches Stage::Recorded {
            result,
        } && result.observation@ != "improved"@ && result.observation@ != "crashed"@
            && result.observation@ != "infra_failure"@),
        c.release is None || c.release == Some(ReleaseReason::NoImprovement) || c.release == Some(
            ReleaseReason::InfraFailure,
        ),
{
    lemma_words();
}

/// A recorded result without an improvement releases the thesis for that reason.
pub proof fn no_improvement_is_released_as_such(
    w: ThesisWorker,
    result: ExperimentResult,
    c: Conclusion,
)
    requires
        call_ensures(ThesisWorker::execute, (&w, Stage::Recorded { result }), c),
        result.observation@ == "no_improvement"@,
    ensures
        c.release == Some(ReleaseReason::NoImprovement),
        c.outcome is NoImprovement,
{
    lemma_words();
}

/// Work that could not be set up keeps its claim, and has failed.
pub proof fn failed_set_up_keeps_the_claim(w: ThesisWorker, error: String, c: Conclusion)
    requires
        call_ensures(ThesisWorker::execute, (&w, Stage::SetupFailed { error }), c),
    ensures
        c.release is None,
        c.outcome is Failed,
{
}

/// What came of the work agrees with what becomes of the claim: work that was set up has improved
/// something exactly where the claim is kept, and has found no improvement exactly where it is
/// released for that; it keeps the number, the place and the result of the work.
pub proof fn what_came_of_the_work(w: ThesisWorker, stage: Stage, c: Conclusion)
    requires
        call_ensures(ThesisWorker::execute, (&w, stage), c),
    ensures
        !(stage is SetupFailed) ==> (c.outcome is Improved <==> c.release is None),
        c.outcome is NoImprovement <==> c.release == Some(ReleaseReason::NoImprovement),
        match c.outcome {
            WorkerOutcome::Improved { issue_number, branch, worktree_path, result } => issue_number
                == w.ctx.issue_number && branch@ == w.branch@ && worktree_path@ == w.worktree_path@
                && stage == (Stage::Recorded { result }),
            WorkerOutcome::NoImprovement { issue_number, worktree_path, result } => issue_number
                == w.ctx.issue_number && worktree_path@ == w.worktree_path@ && stage == (
            Stage::Recorded { result }),
            WorkerOutcome::Failed { issue_number, worktree_path, .. } => issue_number
                == w.ctx.issue_number && worktree_path@ == w.worktree_path@,
        },
{
    lemma_words();
}

/// A thesis whose work found no improvement is exhausted once its release counts, where nobody
/// holds it and none of its candidates is open or decided: the release for the reason that the
/// work gives makes the approved thesis exhausted.
pub proof fn no_improvement_exhausts_the_thesis(
    w: ThesisWorker,
    result: ExperimentResult,
    c: Conclusion,
    issue: Issue,
    posted: Vec<IssueComment>,
    pr_states: Vec<PullRequestState>,
    config: ProtocolConfig,
    now: Timestamp,
    t: ThesisState,
    k: int,
)
    requires
        call_ensures(ThesisWorker::execute, (&w, Stage::Recorded { result }), c),
        result.observation@ == "no_improvement"@,
        call_ensures(
            ThesisState::derive,
            (issue, posted, &pr_states, &config, now),
            Ok::<ThesisState, String>(t),
        ),
        0 <= k < t.releases@.len(),
        c.release == Some(t.releases@[k].reason),
        t.approved,
        t.active_claims@.len() == 0,
        !theses::one_decided(t.pull_requests@),
        !theses::one_open(t.pull_requests@),
    ensures
        t.phase == ThesisPhase::Exhausted,
{
    no_improvement_is_released_as_such(w, result, c);
    theses::the_phase_says_how_far_it_came(
        issue,
        posted,
        pr_states,
        config,
        now,
        Ok::<ThesisState, String>(t),
    );
    assert(t.releases@[k].reason == ReleaseReason::NoImprovement);
}

/// The comment that gives a thesis back is for the worker's thesis and node, and for the reason.
pub proof fn a_release_is_for_the_own_claim(
    w: ThesisWorker,
    reason: ReleaseReason,
    r: ProtocolComment,
)
    requires
        call_ensures(ThesisWorker::release, (&w, reason), r),
    ensures
        r matches ProtocolComment::Release { thesis, node, reason: told } && thesis
            == w.ctx.issue_number && node@ == w.ctx.node_id@ && told == reason,
{
}

/// A result is recorded as it is: for the worker's thesis and branch, with its own metric, baseline
/// and summary, and with the observation that its word stands for. It is published exactly where
/// that is an improvement; a word that stands for nothing is not recorded.
pub proof fn a_result_is_recorded_as_it_is(
    w: ThesisWorker,
    result: ExperimentResult,
    r: Result<RecordPlan, String>,
)
    requires
        call_ensures(ThesisWorker::record, (&w, &result), r),
    ensures
        r is Ok <==> result.observation@ == "improved"@ || result.observation@
            == "no_improvement"@ || result.observation@ == "crashed"@ || result.observation@
            == "infra_failure"@,
        r matches Ok(p) ==> {
            &&& p.publication is Some <==> result.observation@ == "improved"@
            &&& p.comment matches ProtocolComment::Attempt {
                thesis,
                branch,
                metric,
                baseline_metric,
                observation,
                summary,
                annotations,
            } && {
                &&& thesis == w.ctx.issue_number
                &&& branch@ == w.branch@
                &&& metric.bits == result.metric.bits && metric.text@ == result.metric.text@
                &&& baseline_metric is Some <==> result.baseline is Some
                &&& baseline_metric is Some ==> baseline_metric->Some_0.bits
                    == result.baseline->Some_0.bits && baseline_metric->Some_0.text@
                    == result.baseline->Some_0.text@
                &&& summary@ == result.summary@
                &&& annotations is None
                &&& observation == Observation::Improved <==> result.observation@ == "improved"@
                &&& observation == Observation::NoImprovement <==> result.observation@
                    == "no_improvement"@
                &&& observation == Observation::Crashed <==> result.observation@ == "crashed"@
                &&& observation == Observation::InfraFailure <==> result.observation@
                    == "infra_failure"@
            }
        },
{
    lemma_words();
}

/// A metric that was recovered without a report is an improvement exactly where it has a baseline
/// and both are numbers of which its own is the better one: higher where higher is better, lower
/// where lower is better.
pub proof fn a_recovered_metric_improves_on_its_baseline(
    m: RecoveredMetric,
    direction: MetricDirection,
    r: ExperimentResult,
)
    requires
        call_ensures(worker::classify_recovered, (m, direction), r),
    ensures
        r.metric == m.metric,
        r.baseline == m.baseline,
        r.summary@ == m.summary@,
        r.observation@ == "improved"@ || r.observation@ == "no_improvement"@,
        r.observation@ == "improved"@ <==> (m.baseline matches Some(b) && (match direction {
            MetricDirection::HigherIsBetter => metric::less(b.bits, m.metric.bits),
            MetricDirection::LowerIsBetter => metric::less(m.metric.bits, b.bits),
        })),
{
    lemma_words();
}

/// An experiment ends in the agent's own report where there is one. Without it the logs are read,
/// and only where they give nothing the harness is run; what either recovers is the result. An
/// experiment ends without a result only after the harness gave none.
pub proof fn how_an_experiment_goes_on(
    w: ThesisWorker,
    done: ExperimentAction,
    event: ExperimentEvent,
    r: ExperimentAction,
)
    requires
        call_ensures(ThesisWorker::run_experiment, (&w, done, event), r),
    ensures
        done is RunAgent && event is Reported ==> (r matches ExperimentAction::Finish {
            result: Some(x),
        } && x.metric == event->result.metric && x.baseline == event->result.baseline
            && x.observation@ == event->result.observation@ && x.summary@
            == event->result.summary@),
        done is RunAgent && event is Failed ==> (r matches ExperimentAction::Fail { error } && error
            == event->Failed_error),
        done is RunAgent && !(event is Reported) && !(event is Failed) ==> r is ReadLogs,
        done is ReadLogs && !(event is Recovered) ==> r is MakeBaseline,
        (done is ReadLogs || done is RunHarness) && event is Recovered ==> (r matches
            ExperimentAction::Finish { result: Some(x) } && x.metric
            == event->Recovered_metric.metric && x.baseline == event->Recovered_metric.baseline
            && x.summary@ == event->Recovered_metric.summary@ && (x.observation@ == "improved"@
            <==> (event->Recovered_metric.baseline matches Some(b) && (
        match w.ctx.metric_direction {
            MetricDirection::HigherIsBetter => metric::less(b.bits, x.metric.bits),
            MetricDirection::LowerIsBetter => metric::less(x.metric.bits, b.bits),
        })))),
        done is MakeBaseline && !(event is Failed) ==> r is RunHarness,
        done is MakeBaseline && event is Failed ==> r is Fail,
        done is RunHarness && !(event is Recovered) ==> (r matches ExperimentAction::Finish {
            result,
        } && result is None),
        done is Finish || done is Fail ==> r == done,
{
    lemma_words();
}

/// So many runs are made at once that none of the limits is passed: the work at hand, what was
/// asked for, the memory and the cores, each run with its cores; and where all of these allow a
/// run, one is made. One more run would pass one of them.
pub proof fn runs_stay_within_the_limits(
    budget: usize,
    per_run: usize,
    by_memory: Option<usize>,
    max: Option<usize>,
    work: usize,
    r: usize,
)
    requires
        call_ensures(worker::calculate_parallelism, (budget, per_run, by_memory, max, work), r),
    ensures
        r <= work,
        max matches Some(m) ==> r <= m,
        by_memory matches Some(m) ==> r <= m || r <= 1,
        r * per_run <= budget || r <= 1,
        per_run == 0 ==> r <= budget,
        r == work || (max matches Some(m) && r == m) || (by_memory matches Some(m) && (r == m || (r
            == 1 && m == 0))) || (per_run > 0 && ((r + 1) * per_run > budget)) || (per_run == 0 && r
            == budget),
{
    if per_run > 0 {
        let share = budget as nat / per_run as nat;
        vstd::arithmetic::div_mod::lemma_fundamental_div_mod(budget as int, per_run as int);
        let q = budget as int / per_run as int;
        assert(r <= q || r <= 1);
        if r <= q {
            assert(r * per_run <= q * per_run) by (nonlinear_arith)
                requires
                    r <= q,
                    per_run >= 0,
            ;
            assert(q * per_run == per_run * q) by (nonlinear_arith);
        }
        assert((q + 1) * per_run == per_run * q + per_run) by (nonlinear_arith);
        if r >= q {
            assert((r + 1) * per_run >= (q + 1) * per_run) by (nonlinear_arith)
                requires
                    r >= q,
                    per_run >= 0,
            ;
        }
    }
}

} // verus!
