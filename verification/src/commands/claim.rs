//! Claims a thesis.
use crate::commands;
use crate::comments::{CommentView, ProtocolComment};
use crate::state::{ClaimRecord, ThesisState};
use crate::text;
use vstd::prelude::*;
use vstd::string::*;

verus! {

/// A thesis that a node works at, and where.
#[derive(Debug)]
pub struct ClaimOutput {
    pub issue: u64,
    pub node: String,
    pub branch: String,
    pub worktree_path: String,
}

impl ClaimOutput {
    /// Where a node works at a thesis.
    pub open spec fn is_for(&self, repo_root: Seq<char>, t: ThesisState, node: Seq<char>) -> bool {
        &&& self.issue == t.issue.number
        &&& self.node@ == node
        &&& self.branch@ == commands::branch_of(t.issue.number, t.issue.title@)
        &&& self.worktree_path@ == commands::worktree_of(
            repo_root,
            t.issue.number,
            t.issue.title@,
        )
    }

    /// Where a node works at a thesis.
    pub fn new(repo_root: &str, thesis: &ThesisState, node: &str) -> (r: Self)
        ensures
            r.is_for(repo_root@, *thesis, node@),
    {
        ClaimOutput {
            issue: thesis.issue.number,
            node: node.to_owned(),
            branch: commands::thesis_branch(thesis.issue.number, thesis.issue.title.as_str()),
            worktree_path: commands::thesis_worktree_path(
                repo_root,
                thesis.issue.number,
                thesis.issue.title.as_str(),
            ),
        }
    }

    /// The output as it is shown, behind a verb.
    pub open spec fn shown(&self, verb: Seq<char>) -> Seq<char> {
        verb + " thesis #"@ + text::decimal(self.issue as nat) + " as node `"@ + self.node@
            + "` on branch `"@ + self.branch@ + "` in worktree `"@ + self.worktree_path@ + "`."@
    }

    /// The output as it is shown, behind a verb.
    pub fn show(&self, verb: &str) -> (r: String)
        ensures
            r@ == self.shown(verb@),
    {
        let mut r = verb.to_owned();
        r.append(" thesis #");
        r.append(text::number(self.issue).as_str());
        r.append(" as node `");
        r.append(self.node.as_str());
        r.append("` on branch `");
        r.append(self.branch.as_str());
        r.append("` in worktree `");
        r.append(self.worktree_path.as_str());
        r.append("`.");
        r
    }

    /// What is shown of a claim.
    pub fn text(&self, dry_run: bool) -> (r: String)
        ensures
            r@ == self.shown(
                if dry_run {
                    "Would claim"@
                } else {
                    "Claimed"@
                },
            ),
    {
        if dry_run {
            self.show("Would claim")
        } else {
            self.show("Claimed")
        }
    }
}

/// The nodes of claims.
pub open spec fn nodes_of(claims: Seq<ClaimRecord>) -> Seq<Seq<char>> {
    claims.map_values(|c: ClaimRecord| c.node@)
}

/// Goes ahead only where nobody holds the thesis.
pub fn ensure_unclaimed(thesis: &ThesisState, issue: u64) -> (r: Result<(), String>)
    ensures
        if thesis.active_claims@.len() == 0 {
            r is Ok
        } else {
            r matches Err(e) && e@ == "thesis #"@ + text::decimal(issue as nat)
                + " is already claimed by "@ + text::joined(
                nodes_of(thesis.active_claims@),
                ", "@,
            )
        },
{
    let claims = &thesis.active_claims;
    if claims.len() == 0 {
        return Ok(());
    }
    let ghost all = nodes_of(claims@);
    let mut nodes: Vec<String> = Vec::new();
    let mut i: usize = 0;
    assert(text::texts(nodes@) =~= all.take(0));
    while i < claims.len()
        invariant
            i <= claims.len(),
            all == nodes_of(claims@),
            text::texts(nodes@) == all.take(i as int),
        decreases claims.len() - i,
    {
        let ghost before = nodes@;
        nodes.push(claims[i].node.clone());
        proof {
            text::lemma_texts_push(before, nodes@.last());
            assert(all.take(i + 1) =~= all.take(i as int).push(all[i as int]));
        }
        i = i + 1;
    }
    assert(all.take(i as int) =~= all);
    let mut m = text::say("thesis #", issue, " is already claimed by ");
    m.append(text::join(&nodes, ", ").as_str());
    Err(m)
}

/// The comment that claims a thesis.
pub fn claim_comment(thesis: &ThesisState, node: &str) -> (r: ProtocolComment)
    ensures
        r@ == (CommentView::Claim { thesis: thesis.issue.number, node: node@ }),
{
    ProtocolComment::Claim { thesis: thesis.issue.number, node: node.to_owned() }
}

} // verus!
