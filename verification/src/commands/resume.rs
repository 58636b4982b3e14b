//! Takes the work at a claimed thesis up again.
use crate::commands::claim::ClaimOutput;
use crate::text;
use vstd::prelude::*;
use vstd::string::*;

verus! {

/// What is shown of a thesis that is taken up again.
pub fn resumed_text(output: &ClaimOutput, dry_run: bool) -> (r: String)
    ensures
        r@ == output.shown(
            if dry_run {
                "Would resume"@
            } else {
                "Resumed"@
            },
        ),
{
    if dry_run {
        output.show("Would resume")
    } else {
        output.show("Resumed")
    }
}

/// How the directory to work in is had.
#[derive(Debug)]
pub enum WorktreeStep {
    /// It is there.
    Ready,
    /// Make it for a branch that is there: run with these arguments.
    Attach { args: Vec<String> },
    /// Make it with a new branch: run with these arguments.
    Create { args: Vec<String> },
}

/// How the directory to work in is had. `current` is the branch of a directory that is there.
pub fn ensure_worktree(
    worktree_path: &str,
    branch: &str,
    default_branch: &str,
    current: Option<&str>,
    branch_exists: bool,
) -> (r: Result<WorktreeStep, String>)
    ensures
        match current {
            Some(c) => if c@ == branch@ {
                r == Ok::<WorktreeStep, String>(WorktreeStep::Ready)
            } else {
                r matches Err(e) && e@ == "existing worktree `"@ + worktree_path@
                    + "` is on branch `"@ + c@ + "`, expected `"@ + branch@ + "`"@
            },
            None => if branch_exists {
                r matches Ok(WorktreeStep::Attach { args }) && text::texts(args@) == seq![
                    "worktree"@,
                    "add"@,
                    worktree_path@,
                    branch@,
                ]
            } else {
                r matches Ok(WorktreeStep::Create { args }) && text::texts(args@) == seq![
                    "worktree"@,
                    "add"@,
                    "-b"@,
                    branch@,
                    worktree_path@,
                    default_branch@,
                ]
            },
        },
{
    match current {
        Some(c) => {
            if text::same(c, branch) {
                return Ok(WorktreeStep::Ready);
            }
            let mut m = "existing worktree `".to_owned();
            m.append(worktree_path);
            m.append("` is on branch `");
            m.append(c);
            m.append("`, expected `");
            m.append(branch);
            m.append("`");
            Err(m)
        },
        None => {
            if branch_exists {
                let args = text::owned(&["worktree", "add", worktree_path, branch]);
                assert(text::texts(args@) =~= seq![
                    "worktree"@,
                    "add"@,
                    worktree_path@,
                    branch@,
                ]);
                Ok(WorktreeStep::Attach { args })
            } else {
                let args = text::owned(
                    &["worktree", "add", "-b", branch, worktree_path, default_branch],
                );
                assert(text::texts(args@) =~= seq![
                    "worktree"@,
                    "add"@,
                    "-b"@,
                    branch@,
                    worktree_path@,
                    default_branch@,
                ]);
                Ok(WorktreeStep::Create { args })
            }
        },
    }
}

} // verus!
