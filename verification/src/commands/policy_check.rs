//! Checks a candidate against the files that it may change.
use crate::commands::guards;
use crate::comments::{CommentView, Outcome, ProtocolComment};
use crate::state::{PullRequestState, RepositoryState};
use crate::text;
use vstd::prelude::*;
use vstd::string::*;

verus! {

/// A candidate that was checked.
#[derive(Debug)]
pub struct PolicyCheckOutput {
    pub pr: u64,
    pub thesis: Option<u64>,
    pub passed: bool,
    pub violating_files: Vec<String>,
}

/// Why a candidate is not checked.
pub open spec fn check_refusal(s: RepositoryState, pr: u64) -> Option<Seq<char>> {
    let n = text::decimal(pr as nat);
    match guards::candidate_found(s, pr) {
        Err(e) => Some(e),
        Ok((_, p)) => if p.decision is Some {
            Some("PR #"@ + n + " already has a decision"@)
        } else if p.policy_pass {
            Some("PR #"@ + n + " already has a policy-pass"@)
        } else {
            None
        },
    }
}

/// Goes ahead only with a candidate that is neither decided nor checked.
pub fn require_checkable_pr(repo_state: &RepositoryState, pr: u64) -> (r: Result<
    &PullRequestState,
    String,
>)
    ensures
        match check_refusal(*repo_state, pr) {
            Some(e) => r matches Err(m) && m@ == e,
            None => r matches Ok(p) && (guards::candidate_found(*repo_state, pr) matches Ok(found)
                && *p == found.1),
        },
{
    let (_, pr_state) = guards::require_pull_request(repo_state, pr)?;
    if pr_state.decision.is_some() {
        return Err(text::say("PR #", pr, " already has a decision"));
    }
    if pr_state.policy_pass {
        return Err(text::say("PR #", pr, " already has a policy-pass"));
    }
    Ok(pr_state)
}

/// What follows a check.
#[derive(Debug)]
pub enum PolicyStep {
    /// Nothing is recorded.
    Nothing,
    /// Record that the candidate has passed.
    Pass { comment: ProtocolComment },
    /// Record that the candidate is rejected, and close it and its thesis.
    Reject { comment: ProtocolComment, thesis: u64 },
}

/// What follows a check of a candidate for a thesis, whose head is the commit.
pub fn after_check(passed: bool, thesis: Option<u64>, candidate_sha: String, dry_run: bool) -> (r:
    PolicyStep)
    ensures
        match thesis {
            Some(t) if !dry_run => if passed {
                r matches PolicyStep::Pass { comment } && comment@ == (CommentView::PolicyPass {
                    thesis: t,
                    candidate_sha: candidate_sha@,
                })
            } else {
                r matches PolicyStep::Reject { comment, thesis: closed } && closed == t && comment@
                    == (CommentView::Decision {
                    thesis: t,
                    candidate_sha: candidate_sha@,
                    outcome: Outcome::PolicyRejection,
                    confirmations: 0,
                })
            },
            _ => r is Nothing,
        },
{
    if dry_run {
        return PolicyStep::Nothing;
    }
    match thesis {
        Some(thesis) => {
            if passed {
                PolicyStep::Pass { comment: ProtocolComment::PolicyPass { thesis, candidate_sha } }
            } else {
                PolicyStep::Reject {
                    comment: ProtocolComment::Decision {
                        thesis,
                        candidate_sha,
                        outcome: Outcome::PolicyRejection,
                        confirmations: 0,
                    },
                    thesis,
                }
            }
        },
        None => PolicyStep::Nothing,
    }
}

impl PolicyCheckOutput {
    /// What is told of a check: the candidate has passed where no file is in violation.
    pub fn new(pr: u64, thesis: Option<u64>, violating_files: Vec<String>) -> (r: Self)
        ensures
            r == (PolicyCheckOutput {
                pr,
                thesis,
                passed: violating_files@.len() == 0,
                violating_files,
            }),
    {
        PolicyCheckOutput { pr, thesis, passed: violating_files.len() == 0, violating_files }
    }

    /// The output as it is shown.
    pub open spec fn shown(&self) -> Seq<char> {
        let n = text::decimal(self.pr as nat);
        if self.passed {
            "PR #"@ + n + " passed the editable-surface policy check."@
        } else {
            "PR #"@ + n + " failed policy check. Violations: "@ + text::joined(
                text::texts(self.violating_files@),
                ", "@,
            )
        }
    }

    /// The output as it is shown.
    pub fn text(&self) -> (r: String)
        ensures
            r@ == self.shown(),
    {
        if self.passed {
            text::say("PR #", self.pr, " passed the editable-surface policy check.")
        } else {
            let mut r = text::say("PR #", self.pr, " failed policy check. Violations: ");
            r.append(text::join(&self.violating_files, ", ").as_str());
            r
        }
    }
}

} // verus!
