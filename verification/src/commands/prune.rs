//! Removes directories that are no longer worked in.
use crate::state::{RepositoryState, ThesisPhase, ThesisState};
use crate::text;
use vstd::prelude::*;
use vstd::string::*;

verus! {

/// What was removed.
#[derive(Debug)]
pub struct PruneOutput {
    pub removed_worktrees: Vec<String>,
    pub removed_directories: Vec<String>,
    pub skipped_directories: Vec<String>,
}

/// The paths that lines list as registered.
pub open spec fn registered(lines: Seq<Seq<char>>) -> Seq<Seq<char>>
    decreases lines.len(),
{
    if lines.len() == 0 {
        Seq::empty()
    } else {
        let rest = registered(lines.drop_last());
        match text::after_prefix(lines.last(), "worktree "@) {
            Some(path) => rest.push(path),
            None => rest,
        }
    }
}

/// The paths of the directories that are registered, out of the listing of them.
pub fn registered_worktree_paths(output: &str) -> (r: Vec<String>)
    ensures
        text::texts(r@) == registered(text::lines_of(output@)),
{
    let lines = text::lines(output);
    let ghost all = text::lines_of(output@);
    let mut r: Vec<String> = Vec::new();
    let mut i: usize = 0;
    proof {
        assert(all.take(0).len() == 0);
        assert(text::texts(r@) =~= Seq::<Seq<char>>::empty());
    }
    while i < lines.len()
        invariant
            i <= lines.len(),
            text::texts(lines@) == all,
            text::texts(r@) == registered(all.take(i as int)),
        decreases lines.len() - i,
    {
        proof {
            assert(all.take(i + 1).drop_last() =~= all.take(i as int));
            assert(all.take(i + 1).last() == all[i as int]);
            assert(all[i as int] == lines@[i as int]@);
        }
        if let Some(path) = text::strip_prefix(lines[i].as_str(), "worktree ") {
            let ghost before = r@;
            r.push(path.to_owned());
            proof {
                text::lemma_texts_push(before, r@.last());
            }
        }
        i = i + 1;
    }
    assert(all.take(i as int) =~= all);
    r
}

/// The number of the thesis that a directory's name starts with.
pub open spec fn issue_of_name(name: Seq<char>) -> Option<u64> {
    match text::cut(name, "-"@) {
        Some((number, _)) => match text::read_number(number, u64::MAX as nat) {
            Some(n) => Some(n as u64),
            None => None,
        },
        None => None,
    }
}

/// The number of the thesis that a directory's name starts with.
pub fn parse_issue_from_dirname(name: &str) -> (r: Option<u64>)
    ensures
        r == issue_of_name(name@),
{
    match text::split_once(name, "-") {
        Some((number, _)) => text::parse_number(number, u64::MAX),
        None => None,
    }
}

/// Nothing more will be done for the thesis.
pub open spec fn is_over(t: ThesisState) -> bool {
    t.phase is Resolved || t.phase is Rejected
}

/// A thesis with this number is over.
pub open spec fn over(theses: Seq<ThesisState>, number: u64) -> bool {
    exists|i: int|
        0 <= i < theses.len() && (#[trigger] theses[i]).issue.number == number && is_over(theses[i])
}

/// Whether a thesis with this number is over.
pub fn is_terminal(repo_state: &RepositoryState, number: u64) -> (r: bool)
    ensures
        r == over(repo_state.theses@, number),
{
    let theses = &repo_state.theses;
    let mut i: usize = 0;
    while i < theses.len()
        invariant
            i <= theses.len(),
            *theses == repo_state.theses,
            forall|j: int|
                0 <= j < i ==> !((#[trigger] theses@[j]).issue.number == number && is_over(
                    theses@[j],
                )),
        decreases theses.len() - i,
    {
        let done = match theses[i].phase {
            ThesisPhase::Resolved { .. } => true,
            ThesisPhase::Rejected => true,
            _ => false,
        };
        if done && theses[i].issue.number == number {
            assert(theses@[i as int].issue.number == number);
            return true;
        }
        i = i + 1;
    }
    false
}

/// What is done with a directory.
#[derive(Clone, Copy, Debug, PartialEq, Eq, Structural)]
pub enum PruneAction {
    /// Remove it and its registration.
    RemoveWorktree,
    /// Remove it with all that it holds.
    RemoveTree,
    /// Leave it.
    Keep,
    /// Remove it where it is empty, else skip it.
    RemoveIfEmpty,
}

/// What is done with a directory: that of a thesis that is over is removed; another one that is
/// registered is left; and one that is not is removed only where it is empty. Without a state no
/// thesis is known to be over.
pub fn prune_action(name: &str, is_registered: bool, state: &Option<RepositoryState>) -> (r:
    PruneAction)
    ensures
        r == (if (issue_of_name(name@) is Some && match *state {
            Some(s) => over(s.theses@, issue_of_name(name@)->Some_0),
            None => false,
        }) {
            if is_registered {
                PruneAction::RemoveWorktree
            } else {
                PruneAction::RemoveTree
            }
        } else if is_registered {
            PruneAction::Keep
        } else {
            PruneAction::RemoveIfEmpty
        }),
{
    let terminal = match (parse_issue_from_dirname(name), state) {
        (Some(number), Some(s)) => is_terminal(s, number),
        _ => false,
    };
    if terminal {
        if is_registered {
            PruneAction::RemoveWorktree
        } else {
            PruneAction::RemoveTree
        }
    } else if is_registered {
        PruneAction::Keep
    } else {
        PruneAction::RemoveIfEmpty
    }
}

impl PruneOutput {
    /// A count between texts, where there is anything to count.
    pub open spec fn counted(start: Seq<char>, count: nat, end: Seq<char>) -> Seq<char> {
        if count == 0 {
            Seq::empty()
        } else {
            start + text::decimal(count) + end
        }
    }

    /// The output as it is shown.
    pub open spec fn shown(&self) -> Seq<char> {
        let start = "Pruned git worktree metadata."@ + Self::counted(
            " Removed "@,
            self.removed_worktrees@.len(),
            " resolved thesis worktree(s)."@,
        ) + Self::counted(
            " Removed "@,
            self.removed_directories@.len(),
            " stale empty directory(ies)."@,
        ) + Self::counted(
            " Skipped "@,
            self.skipped_directories@.len(),
            " non-empty directory(ies)."@,
        );
        if self.removed_worktrees@.len() == 0 && self.removed_directories@.len() == 0
            && self.skipped_directories@.len() == 0 {
            start + " No stale worktree directories found."@
        } else {
            start
        }
    }

    /// The output as it is shown.
    pub fn text(&self) -> (r: String)
        ensures
            r@ == self.shown(),
    {
        let mut r = "Pruned git worktree metadata.".to_owned();
        let a: usize = self.removed_worktrees.len();
        let b: usize = self.removed_directories.len();
        let c: usize = self.skipped_directories.len();
        let ghost s0 = r@;
        if a > 0 {
            r.append(
                text::say(" Removed ", a as u64, " resolved thesis worktree(s).").as_str(),
            );
        }
        let ghost s1 = s0 + Self::counted(
            " Removed "@,
            a as nat,
            " resolved thesis worktree(s)."@,
        );
        assert(r@ =~= s1);
        if b > 0 {
            r.append(text::say(" Removed ", b as u64, " stale empty directory(ies).").as_str());
        }
        let ghost s2 = s1 + Self::counted(" Removed "@, b as nat, " stale empty directory(ies)."@);
        assert(r@ =~= s2);
        if c > 0 {
            r.append(text::say(" Skipped ", c as u64, " non-empty directory(ies).").as_str());
        }
        assert(r@ =~= s2 + Self::counted(" Skipped "@, c as nat, " non-empty directory(ies)."@));
        if a == 0 && b == 0 && c == 0 {
            r.append(" No stale worktree directories found.");
        }
        r
    }
}

} // verus!
