//! Adds a remark to a thesis.
use crate::cli::AnnotateArgs;
use crate::commands::guards;
use crate::comments::{CommentView, ProtocolComment};
use crate::state::RepositoryState;
use crate::text;
use vstd::prelude::*;
use vstd::string::*;

verus! {

/// A thesis that got a remark.
#[derive(Debug)]
pub struct AnnotateOutput {
    pub issue: u64,
    pub node: String,
}

/// The comment that adds a remark to a thesis, and what is told of it.
pub fn annotate(repo_state: &RepositoryState, args: &AnnotateArgs, node: &str) -> (r: Result<
    (ProtocolComment, AnnotateOutput),
    String,
>)
    ensures
        match guards::thesis_found(*repo_state, args.issue) {
            Err(e) => r matches Err(m) && m@ == e,
            Ok(t) => r matches Ok((c, o)) && c@ == (CommentView::Annotation {
                thesis: t.issue.number,
                node: node@,
                text: args.text@,
            }) && o.issue == t.issue.number && o.node@ == node@,
        },
{
    let thesis = guards::find_thesis(repo_state, args.issue)?;
    let comment = ProtocolComment::Annotation {
        thesis: thesis.issue.number,
        node: node.to_owned(),
        text: args.text.clone(),
    };
    Ok((comment, AnnotateOutput { issue: thesis.issue.number, node: node.to_owned() }))
}

impl AnnotateOutput {
    /// The output as it is shown.
    pub fn text(&self) -> (r: String)
        ensures
            r@ == "Annotated thesis #"@ + text::decimal(self.issue as nat) + " for node `"@
                + self.node@ + "`."@,
    {
        let mut r = text::say("Annotated thesis #", self.issue, " for node `");
        r.append(self.node.as_str());
        r.append("`.");
        r
    }
}

} // verus!
