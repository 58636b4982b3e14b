//! Repairs that the lead makes.
use crate::cli::{AdminAcknowledgeInvalidArgs, AdminReleaseClaimArgs, AdminReopenThesisArgs};
use crate::commands::guards;
use crate::comments::{CommentView, ProtocolComment};
use crate::state::RepositoryState;
use crate::text;
use crate::validation::{AuditFinding, AuditScope};
use vstd::prelude::*;
use vstd::string::*;

verus! {

/// A repair that was made.
#[derive(Debug)]
pub enum AdminOutput {
    ReleaseClaim { issue: u64, node: String },
    AcknowledgeInvalid { comment_id: u64, scope: String },
    ReopenThesis { issue: u64 },
}

impl AdminOutput {
    /// The output as it is shown.
    pub open spec fn shown(&self) -> Seq<char> {
        match *self {
            AdminOutput::ReleaseClaim { issue, node } => "Released claim on thesis #"@
                + text::decimal(issue as nat) + " for node `"@ + node@ + "`."@,
            AdminOutput::AcknowledgeInvalid { comment_id, scope } =>
                "Acknowledged finding for comment "@ + text::decimal(comment_id as nat) + " on "@
                + scope@ + "."@,
            AdminOutput::ReopenThesis { issue } => "Reopened thesis #"@ + text::decimal(
                issue as nat,
            ) + "."@,
        }
    }

    /// The output as it is shown.
    pub fn text(&self) -> (r: String)
        ensures
            r@ == self.shown(),
    {
        match self {
            AdminOutput::ReleaseClaim { issue, node } => {
                let mut r = text::say("Released claim on thesis #", *issue, " for node `");
                r.append(node.as_str());
                r.append("`.");
                r
            },
            AdminOutput::AcknowledgeInvalid { comment_id, scope } => {
                let mut r = text::say("Acknowledged finding for comment ", *comment_id, " on ");
                r.append(scope.as_str());
                r.append(".");
                r
            },
            AdminOutput::ReopenThesis { issue } => text::say("Reopened thesis #", *issue, "."),
        }
    }
}

/// The comments that release another node's claim: what was done, and the release.
pub open spec fn release_comments(args: AdminReleaseClaimArgs) -> Seq<CommentView> {
    seq![
        CommentView::AdminNote {
            action: "release_claim"@,
            target: "thesis #"@ + text::decimal(args.issue as nat) + " node `"@ + args.node@ + "`"@,
            note: args.note@,
            related_comment_id: None,
        },
        CommentView::Release { thesis: args.issue, node: args.node@, reason: args.reason },
    ]
}

/// The comments that release another node's claim, and what is told of it. Refused where the node
/// does not hold the thesis.
pub fn release_claim(repo_state: &RepositoryState, args: &AdminReleaseClaimArgs) -> (r: Result<
    (Vec<ProtocolComment>, AdminOutput),
    String,
>)
    ensures
        match guards::thesis_found(*repo_state, args.issue) {
            Err(e) => r matches Err(m) && m@ == e,
            Ok(t) => if t.held_by(args.node@) {
                r matches Ok((c, o)) && c@.map_values(|x: ProtocolComment| x@) == release_comments(
                    *args,
                ) && o == (AdminOutput::ReleaseClaim { issue: args.issue, node: args.node })
            } else {
                r matches Err(m) && m@ == "thesis #"@ + text::decimal(args.issue as nat)
                    + " does not currently have an active claim for node `"@ + args.node@ + "`"@
            },
        },
{
    let thesis = guards::find_thesis(repo_state, args.issue)?;
    if !thesis.is_claimed_by(args.node.as_str()) {
        let mut m = text::say(
            "thesis #",
            args.issue,
            " does not currently have an active claim for node `",
        );
        m.append(args.node.as_str());
        m.append("`");
        return Err(m);
    }
    let mut target = text::say("thesis #", args.issue, " node `");
    target.append(args.node.as_str());
    target.append("`");
    let comments = vec![
        ProtocolComment::AdminNote {
            action: "release_claim".to_owned(),
            target,
            note: args.note.clone(),
            related_comment_id: None,
        },
        ProtocolComment::Release {
            thesis: args.issue,
            node: args.node.clone(),
            reason: args.reason,
        },
    ];
    assert(comments@.map_values(|x: ProtocolComment| x@) =~= release_comments(*args));
    Ok((comments, AdminOutput::ReleaseClaim { issue: args.issue, node: args.node.clone() }))
}

/// The place of the first finding about a comment.
pub open spec fn finding_at(findings: Seq<AuditFinding>, comment_id: u64, i: int) -> Option<int>
    decreases findings.len() - i,
{
    if i >= findings.len() {
        None
    } else if findings[i].comment_id == Some(comment_id) {
        Some(i)
    } else {
        finding_at(findings, comment_id, i + 1)
    }
}

/// The number of the issue or candidate that a finding is about, and how it is called.
pub open spec fn scope_label(scope: AuditScope) -> Option<(u64, Seq<char>)> {
    match scope {
        AuditScope::Issue { number } => Some(
            (number, "issue #"@ + text::decimal(number as nat)),
        ),
        AuditScope::PullRequest { number } => Some((number, "PR #"@ + text::decimal(number as nat))),
        AuditScope::Repository => None,
    }
}

fn find_finding(findings: &Vec<AuditFinding>, comment_id: u64) -> (r: Option<usize>)
    ensures
        match r {
            Some(i) => finding_at(findings@, comment_id, 0) == Some(i as int) && i
                < findings@.len(),
            None => finding_at(findings@, comment_id, 0) is None,
        },
{
    let mut i: usize = 0;
    while i < findings.len()
        invariant
            i <= findings.len(),
            finding_at(findings@, comment_id, 0) == finding_at(findings@, comment_id, i as int),
        decreases findings.len() - i,
    {
        match findings[i].comment_id {
            Some(id) => {
                if id == comment_id {
                    return Some(i);
                }
            },
            None => {},
        }
        i = i + 1;
    }
    None
}

/// The comment that acknowledges a finding, the issue or candidate that it goes to, and what is
/// told of it.
pub fn acknowledge_invalid(repo_state: &RepositoryState, args: &AdminAcknowledgeInvalidArgs) -> (r:
    Result<(u64, ProtocolComment, AdminOutput), String>)
    ensures
        match finding_at(repo_state.audit_findings@, args.comment_id, 0) {
            None => r matches Err(m) && m@ == "no audit finding references comment ID "@
                + text::decimal(args.comment_id as nat),
            Some(i) => match scope_label(repo_state.audit_findings@[i].scope) {
                None => r matches Err(m) && m@
                    == "repository-wide findings cannot be acknowledged by comment ID"@,
                Some((number, label)) => r matches Ok((n, c, o)) && n == number && c@
                    == (CommentView::AdminNote {
                    action: "acknowledge_invalid"@,
                    target: label,
                    note: args.note@,
                    related_comment_id: Some(args.comment_id),
                }) && (o matches AdminOutput::AcknowledgeInvalid { comment_id, scope } && comment_id
                    == args.comment_id && scope@ == label),
            },
        },
{
    let place = match find_finding(&repo_state.audit_findings, args.comment_id) {
        Some(i) => i,
        None => {
            return Err(
                text::numbered("no audit finding references comment ID ", args.comment_id),
            );
        },
    };
    let (number, label) = match repo_state.audit_findings[place].scope {
        AuditScope::Issue { number } => (number, text::numbered("issue #", number)),
        AuditScope::PullRequest { number } => (number, text::numbered("PR #", number)),
        AuditScope::Repository => {
            return Err(
                "repository-wide findings cannot be acknowledged by comment ID".to_owned(),
            );
        },
    };
    let comment = ProtocolComment::AdminNote {
        action: "acknowledge_invalid".to_owned(),
        target: label.clone(),
        note: args.note.clone(),
        related_comment_id: Some(args.comment_id),
    };
    let output = AdminOutput::AcknowledgeInvalid { comment_id: args.comment_id, scope: label };
    Ok((number, comment, output))
}

/// The comment on a thesis that is opened again, and what is told of it.
pub fn reopen_thesis(args: &AdminReopenThesisArgs) -> (r: (ProtocolComment, AdminOutput))
    ensures
        r.0@ == (CommentView::AdminNote {
            action: "reopen_thesis"@,
            target: "thesis #"@ + text::decimal(args.issue as nat),
            note: args.note@,
            related_comment_id: None,
        }),
        r.1 == (AdminOutput::ReopenThesis { issue: args.issue }),
{
    let comment = ProtocolComment::AdminNote {
        action: "reopen_thesis".to_owned(),
        target: text::numbered("thesis #", args.issue),
        note: args.note.clone(),
        related_comment_id: None,
    };
    (comment, AdminOutput::ReopenThesis { issue: args.issue })
}

} // verus!
