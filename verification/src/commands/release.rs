//! Gives a claim up.
use crate::cli::ReleaseArgs;
use crate::comments::{CommentView, ProtocolComment};
use crate::text;
use vstd::prelude::*;
use vstd::string::*;

verus! {

/// A claim that was given up.
#[derive(Debug)]
pub struct ReleaseOutput {
    pub issue: u64,
    pub node: String,
    pub reason: String,
}

/// The comment that gives a claim up, and what is told of it.
pub fn release(args: &ReleaseArgs, node: &str) -> (r: (ProtocolComment, ReleaseOutput))
    ensures
        r.0@ == (CommentView::Release { thesis: args.issue, node: node@, reason: args.reason }),
        r.1.issue == args.issue,
        r.1.node@ == node@,
        r.1.reason@ == args.reason.word(),
{
    let comment = ProtocolComment::Release {
        thesis: args.issue,
        node: node.to_owned(),
        reason: args.reason,
    };
    let output = ReleaseOutput {
        issue: args.issue,
        node: node.to_owned(),
        reason: args.reason.text(),
    };
    (comment, output)
}

impl ReleaseOutput {
    /// The output as it is shown.
    pub fn text(&self) -> (r: String)
        ensures
            r@ == "Released thesis #"@ + text::decimal(self.issue as nat) + " for node `"@
                + self.node@ + "` ("@ + self.reason@ + ")"@,
    {
        let mut r = text::say("Released thesis #", self.issue, " for node `");
        r.append(self.node.as_str());
        r.append("` (");
        r.append(self.reason.as_str());
        r.append(")");
        r
    }
}

} // verus!
