//! Claims the review of a candidate.
use crate::commands::guards;
use crate::comments::{CommentView, ProtocolComment};
use crate::state::RepositoryState;
use crate::text;
use vstd::prelude::*;
use vstd::string::*;

verus! {

/// A candidate whose review was claimed.
#[derive(Debug)]
pub struct ReviewClaimOutput {
    pub pr: u64,
    pub issue: u64,
    pub node: String,
}

/// The comment that claims the review of a candidate, and what is told of it.
pub fn claim_review(repo_state: &RepositoryState, pr: u64, login: &str, node: &str) -> (r: Result<
    (ProtocolComment, ReviewClaimOutput),
    String,
>)
    ensures
        match guards::reviewable_pr(*repo_state, pr, login@) {
            Err(e) => r matches Err(m) && m@ == e,
            Ok((t, _)) => r matches Ok((c, o)) && c@ == (CommentView::ReviewClaim {
                thesis: t.issue.number,
                node: node@,
            }) && o.pr == pr && o.issue == t.issue.number && o.node@ == node@,
        },
{
    let (thesis, _) = guards::require_reviewable_pr(repo_state, pr, login)?;
    let comment = ProtocolComment::ReviewClaim {
        thesis: thesis.issue.number,
        node: node.to_owned(),
    };
    Ok((comment, ReviewClaimOutput { pr, issue: thesis.issue.number, node: node.to_owned() }))
}

impl ReviewClaimOutput {
    /// The output as it is shown.
    pub fn text(&self) -> (r: String)
        ensures
            r@ == "Claimed PR #"@ + text::decimal(self.pr as nat) + " for review on thesis #"@
                + text::decimal(self.issue as nat) + " as `"@ + self.node@ + "`."@,
    {
        let mut r = text::say("Claimed PR #", self.pr, " for review on thesis #");
        r.append(text::number(self.issue).as_str());
        r.append(" as `");
        r.append(self.node.as_str());
        r.append("`.");
        r
    }
}

} // verus!
