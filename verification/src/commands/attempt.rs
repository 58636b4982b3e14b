//! Records an attempt at a thesis.
use crate::cli::AttemptArgs;
use crate::comments;
use crate::comments::{AttemptAnnotation, CommentView, Observation, ProtocolComment};
use crate::metric::Metric;
use crate::state::ThesisState;
use crate::text;
use vstd::prelude::*;
use vstd::string::*;

verus! {

/// An attempt that was recorded.
#[derive(Debug)]
pub struct AttemptOutput {
    pub issue: u64,
    pub branch: String,
    pub metric: Metric,
    pub baseline_metric: Metric,
    pub attempt_number: usize,
    pub annotations_count: usize,
}

/// The start of the names of a thesis's branches.
pub open spec fn branch_start(issue: u64) -> Seq<char> {
    "thesis/"@ + text::decimal(issue as nat) + "-"@
}

/// Goes ahead only on a branch of the thesis.
pub fn ensure_thesis_branch(branch: &str, issue: u64) -> (r: Result<(), String>)
    ensures
        if text::begins(branch@, branch_start(issue)) {
            r is Ok
        } else {
            r matches Err(e) && e@ == "current branch `"@ + branch@
                + "` does not look like a thesis branch for issue #"@ + text::decimal(issue as nat)
        },
{
    let start = text::say("thesis/", issue, "-");
    if text::starts_with(branch, start.as_str()) {
        return Ok(());
    }
    let mut m = "current branch `".to_owned();
    m.append(branch);
    m.append("` does not look like a thesis branch for issue #");
    m.append(text::number(issue).as_str());
    Err(m)
}

/// The comment that records an attempt, and what is told of it.
pub fn record(
    thesis: &ThesisState,
    args: &AttemptArgs,
    branch: &str,
    annotations: Option<Vec<AttemptAnnotation>>,
) -> (r: (ProtocolComment, AttemptOutput))
    requires
        thesis.attempts@.len() < usize::MAX,
    ensures
        r.0@ == (CommentView::Attempt {
            thesis: args.issue,
            branch: branch@,
            metric: args.metric@,
            baseline_metric: Some(args.baseline@),
            observation: args.observation,
            summary: args.summary@,
            annotations: comments::option_annotations(annotations),
        }),
        r.1.issue == args.issue,
        r.1.branch@ == branch@,
        r.1.metric == args.metric,
        r.1.baseline_metric == args.baseline,
        r.1.attempt_number == thesis.attempts@.len() + 1,
        r.1.annotations_count == (match annotations {
            Some(a) => a@.len(),
            None => 0,
        }),
{
    let annotations_count: usize = match &annotations {
        Some(a) => a.len(),
        None => 0,
    };
    let comment = ProtocolComment::Attempt {
        thesis: args.issue,
        branch: branch.to_owned(),
        metric: args.metric.clone(),
        baseline_metric: Some(args.baseline.clone()),
        observation: args.observation,
        summary: args.summary.clone(),
        annotations,
    };
    let output = AttemptOutput {
        issue: args.issue,
        branch: branch.to_owned(),
        metric: args.metric.clone(),
        baseline_metric: args.baseline.clone(),
        attempt_number: thesis.attempts.len() + 1,
        annotations_count,
    };
    (comment, output)
}

impl AttemptOutput {
    /// The output as it is shown.
    pub open spec fn shown(&self, observation: Observation) -> Seq<char> {
        let first = "Recorded attempt "@ + text::decimal(self.attempt_number as nat)
            + " for thesis #"@ + text::decimal(self.issue as nat) + " on `"@ + self.branch@ + "` ("@
            + self.metric.text@ + " vs "@ + self.baseline_metric.text@ + ")."@;
        let second = if self.annotations_count > 0 {
            first + "\nIncluded "@ + text::decimal(self.annotations_count as nat)
                + " structured annotation"@ + (if self.annotations_count == 1 {
                "."@
            } else {
                "s."@
            })
        } else {
            first
        };
        if observation == Observation::Improved {
            second + "\nImproved result recorded. Run `polyresearch submit "@ + text::decimal(
                self.issue as nat,
            ) + "` to open a candidate PR."@
        } else {
            second
        }
    }

    /// The output as it is shown.
    pub fn text(&self, observation: Observation) -> (r: String)
        ensures
            r@ == self.shown(observation),
    {
        let mut m = text::say("Recorded attempt ", self.attempt_number as u64, " for thesis #");
        m.append(text::number(self.issue).as_str());
        m.append(" on `");
        m.append(self.branch.as_str());
        m.append("` (");
        m.append(self.metric.text.as_str());
        m.append(" vs ");
        m.append(self.baseline_metric.text.as_str());
        m.append(").");
        if self.annotations_count > 0 {
            m.append("\nIncluded ");
            m.append(text::number(self.annotations_count as u64).as_str());
            m.append(" structured annotation");
            if self.annotations_count == 1 {
                m.append(".");
            } else {
                m.append("s.");
            }
        }
        if observation == Observation::Improved {
            m.append("\nImproved result recorded. Run `polyresearch submit ");
            m.append(text::number(self.issue).as_str());
            m.append("` to open a candidate PR.");
        }
        m
    }
}

} // verus!
