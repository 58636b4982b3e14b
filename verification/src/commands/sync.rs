//! Brings the ledger up to date and publishes it.
use crate::ledger::LedgerRow;
use crate::text;
use vstd::prelude::*;
use vstd::string::*;

verus! {

/// What commits of the ledger say.
pub const SYNC_COMMIT_MESSAGE: &'static str = "Update results.tsv via polyresearch sync.";

/// How often a push is tried again.
pub const PUSH_RETRY_LIMIT: usize = 3;

/// How often the ledger is derived again.
pub const SYNC_RESTART_LIMIT: usize = 3;

/// What was added to the ledger.
#[derive(Debug)]
pub struct SyncOutput {
    pub added_rows: usize,
    pub attempts: Vec<String>,
}

/// The attempts of rows.
pub open spec fn attempts_of(rows: Seq<LedgerRow>) -> Seq<Seq<char>> {
    rows.map_values(|r: LedgerRow| r.attempt@)
}

impl SyncOutput {
    /// What is told of rows that were missing.
    pub fn new(missing: &Vec<LedgerRow>) -> (r: Self)
        ensures
            r.added_rows == missing@.len(),
            text::texts(r.attempts@) == attempts_of(missing@),
    {
        let mut attempts: Vec<String> = Vec::new();
        let mut i: usize = 0;
        let ghost all = attempts_of(missing@);
        assert(text::texts(attempts@) =~= all.take(0));
        while i < missing.len()
            invariant
                i <= missing.len(),
                all == attempts_of(missing@),
                text::texts(attempts@) == all.take(i as int),
            decreases missing.len() - i,
        {
            let ghost before = attempts@;
            attempts.push(missing[i].attempt.clone());
            proof {
                text::lemma_texts_push(before, attempts@.last());
                assert(all.take(i + 1) =~= all.take(i as int).push(all[i as int]));
            }
            i = i + 1;
        }
        assert(all.take(i as int) =~= all);
        SyncOutput { added_rows: missing.len(), attempts }
    }

    /// The output as it is shown.
    pub open spec fn shown(&self, dry_run: bool) -> Seq<char> {
        let n = text::decimal(self.added_rows as nat);
        if self.added_rows == 0 {
            "results.tsv is already current."@
        } else if dry_run {
            "Would append "@ + n + " rows to results.tsv."@
        } else {
            "Appended "@ + n + " rows to results.tsv."@
        }
    }

    /// The output as it is shown.
    pub fn text(&self, dry_run: bool) -> (r: String)
        ensures
            r@ == self.shown(dry_run),
    {
        if self.added_rows == 0 {
            "results.tsv is already current.".to_owned()
        } else if dry_run {
            text::say("Would append ", self.added_rows as u64, " rows to results.tsv.")
        } else {
            text::say("Appended ", self.added_rows as u64, " rows to results.tsv.")
        }
    }
}

/// How a pull ended.
#[derive(Clone, Copy, Debug, PartialEq, Eq, Structural)]
pub enum PullOutcome {
    Updated,
    ResetSyncCommits,
}

/// The lines that say something.
pub open spec fn told_lines(lines: Seq<Seq<char>>) -> Seq<Seq<char>>
    decreases lines.len(),
{
    if lines.len() == 0 {
        Seq::empty()
    } else {
        let rest = told_lines(lines.drop_last());
        if text::trimmed(lines.last()).len() == 0 {
            rest
        } else {
            rest.push(lines.last())
        }
    }
}

/// There are commits, and all of them are commits of the ledger.
pub open spec fn only_sync_commits(log: Seq<char>) -> bool {
    let told = told_lines(text::lines_of(log));
    told.len() > 0 && forall|i: int|
        0 <= i < told.len() ==> #[trigger] told[i] == SYNC_COMMIT_MESSAGE@
}

/// Whether a log holds commits of the ledger and nothing else.
pub fn local_sync_commits_only(log: &str) -> (r: bool)
    ensures
        r == only_sync_commits(log@),
{
    let lines = text::lines(log);
    let ghost all = text::lines_of(log@);
    let mut some = false;
    let mut every = true;
    let mut i: usize = 0;
    assert(all.take(0).len() == 0);
    while i < lines.len()
        invariant
            i <= lines.len(),
            text::texts(lines@) == all,
            some == (told_lines(all.take(i as int)).len() > 0),
            every == (forall|j: int|
                0 <= j < told_lines(all.take(i as int)).len() ==> #[trigger] told_lines(
                    all.take(i as int),
                )[j] == SYNC_COMMIT_MESSAGE@),
        decreases lines.len() - i,
    {
        let ghost before = told_lines(all.take(i as int));
        proof {
            assert(all.take(i + 1).drop_last() =~= all.take(i as int));
            assert(all.take(i + 1).last() == all[i as int]);
            assert(all[i as int] == lines@[i as int]@);
        }
        let ghost after = told_lines(all.take(i + 1));
        if text::trim(lines[i].as_str()).unicode_len() > 0 {
            some = true;
            let same = text::same(lines[i].as_str(), SYNC_COMMIT_MESSAGE);
            proof {
                assert(after == before.push(all[i as int]));
                assert(after[before.len() as int] == all[i as int]);
                assert forall|j: int| 0 <= j < before.len() implies #[trigger] after[j]
                    == before[j] by {}
                if every && same {
                    assert forall|j: int| 0 <= j < after.len() implies #[trigger] after[j]
                        == SYNC_COMMIT_MESSAGE@ by {
                        if j < before.len() {
                            assert(after[j] == before[j]);
                        }
                    }
                }
                if !every {
                    let j = choose|j: int|
                        0 <= j < before.len() && #[trigger] before[j] != SYNC_COMMIT_MESSAGE@;
                    assert(after[j] == before[j]);
                }
            }
            every = every && same;
        }
        i = i + 1;
    }
    assert(all.take(i as int) =~= all);
    some && every
}

/// What a pull does next.
#[derive(Debug)]
pub enum PullAction {
    /// Fetch the branch.
    Fetch,
    /// Move the local branch forward.
    FastForward,
    /// Put local commits on top of the fetched branch.
    Rebase,
    /// Take the failed rebase back.
    Abort { error: String },
    /// List the local commits.
    ReadLog { error: String },
    /// Drop the local commits.
    Reset,
    /// Be done.
    Finish { outcome: PullOutcome },
    /// Give up.
    Fail { error: String },
}

/// What came of a command: its output, or its error.
pub type Ran = Result<String, String>;

/// What follows an action of a pull and what came of it. Local commits are kept where they can be
/// put on top of what was fetched; commits of the ledger are dropped where they cannot, since the
/// ledger can be derived again.
pub open spec fn pull_after(done: PullAction, ran: Ran) -> PullAction {
    match done {
        PullAction::Fetch => match ran {
            Ok(_) => PullAction::FastForward,
            Err(error) => PullAction::Fail { error },
        },
        PullAction::FastForward => match ran {
            Ok(_) => PullAction::Finish { outcome: PullOutcome::Updated },
            Err(_) => PullAction::Rebase,
        },
        PullAction::Rebase => match ran {
            Ok(_) => PullAction::Finish { outcome: PullOutcome::Updated },
            Err(error) => PullAction::Abort { error },
        },
        PullAction::Abort { error } => PullAction::ReadLog { error },
        PullAction::ReadLog { error } => match ran {
            Ok(log) => if only_sync_commits(log@) {
                PullAction::Reset
            } else {
                PullAction::Fail { error }
            },
            Err(unread) => PullAction::Fail { error: unread },
        },
        PullAction::Reset => match ran {
            Ok(_) => PullAction::Finish { outcome: PullOutcome::ResetSyncCommits },
            Err(error) => PullAction::Fail { error },
        },
        PullAction::Finish { outcome } => PullAction::Finish { outcome },
        PullAction::Fail { error } => PullAction::Fail { error },
    }
}

/// What follows an action of a pull and what came of it.
pub fn pull_default_branch(done: PullAction, ran: Ran) -> (r: PullAction)
    ensures
        r == pull_after(done, ran),
{
    match done {
        PullAction::Fetch => match ran {
            Ok(_) => PullAction::FastForward,
            Err(error) => PullAction::Fail { error },
        },
        PullAction::FastForward => match ran {
            Ok(_) => PullAction::Finish { outcome: PullOutcome::Updated },
            Err(_) => PullAction::Rebase,
        },
        PullAction::Rebase => match ran {
            Ok(_) => PullAction::Finish { outcome: PullOutcome::Updated },
            Err(error) => PullAction::Abort { error },
        },
        PullAction::Abort { error } => PullAction::ReadLog { error },
        PullAction::ReadLog { error } => match ran {
            Ok(log) => {
                if local_sync_commits_only(log.as_str()) {
                    PullAction::Reset
                } else {
                    PullAction::Fail { error }
                }
            },
            Err(unread) => PullAction::Fail { error: unread },
        },
        PullAction::Reset => match ran {
            Ok(_) => PullAction::Finish { outcome: PullOutcome::ResetSyncCommits },
            Err(error) => PullAction::Fail { error },
        },
        PullAction::Finish { outcome } => PullAction::Finish { outcome },
        PullAction::Fail { error } => PullAction::Fail { error },
    }
}

/// Local commits are dropped only where all of them are commits of the ledger, and only after the
/// failed rebase was taken back.
pub proof fn only_ledger_commits_are_dropped(done: PullAction, ran: Ran)
    ensures
        pull_after(done, ran) is Reset ==> (done is ReadLog && match ran {
            Ok(log) => only_sync_commits(log@),
            Err(_) => false,
        }),
{
}

/// The arguments of an action of a pull; none where nothing is run.
pub open spec fn pull_command(action: PullAction, branch: Seq<char>) -> Seq<Seq<char>> {
    let remote = "origin/"@ + branch;
    match action {
        PullAction::Fetch => seq!["fetch"@, "origin"@, branch],
        PullAction::FastForward => seq!["merge"@, "--ff-only"@, remote],
        PullAction::Rebase => seq!["rebase"@, remote],
        PullAction::Abort { .. } => seq!["rebase"@, "--abort"@],
        PullAction::ReadLog { .. } => seq!["log"@, "--format=%s"@, remote + "..HEAD"@],
        PullAction::Reset => seq!["reset"@, "--hard"@, remote],
        _ => Seq::empty(),
    }
}

/// The arguments of an action of a pull; none where nothing is run.
pub fn pull_args(action: &PullAction, branch: &str) -> (r: Vec<String>)
    ensures
        text::texts(r@) == pull_command(*action, branch@),
{
    let mut remote = "origin/".to_owned();
    remote.append(branch);
    match action {
        PullAction::Fetch => {
            let r = text::owned(&["fetch", "origin", branch]);
            assert(text::texts(r@) =~= pull_command(*action, branch@));
            r
        },
        PullAction::FastForward => {
            let r = text::owned(&["merge", "--ff-only", remote.as_str()]);
            assert(text::texts(r@) =~= pull_command(*action, branch@));
            r
        },
        PullAction::Rebase => {
            let r = text::owned(&["rebase", remote.as_str()]);
            assert(text::texts(r@) =~= pull_command(*action, branch@));
            r
        },
        PullAction::Abort { .. } => {
            let r = text::owned(&["rebase", "--abort"]);
            assert(text::texts(r@) =~= pull_command(*action, branch@));
            r
        },
        PullAction::ReadLog { .. } => {
            remote.append("..HEAD");
            let r = text::owned(&["log", "--format=%s", remote.as_str()]);
            assert(text::texts(r@) =~= pull_command(*action, branch@));
            r
        },
        PullAction::Reset => {
            let r = text::owned(&["reset", "--hard", remote.as_str()]);
            assert(text::texts(r@) =~= pull_command(*action, branch@));
            r
        },
        _ => {
            let r: Vec<String> = Vec::new();
            assert(text::texts(r@) =~= pull_command(*action, branch@));
            r
        },
    }
}

/// The message says that the remote branch has moved.
pub open spec fn moved_remote(message: Seq<char>) -> bool {
    text::holds(message, "non-fast-forward"@) || text::holds(message, "fetch first"@)
        || text::holds(message, "Updates were rejected because the remote contains work"@)
        || text::holds(message, "cannot lock ref"@) || text::holds(
        message,
        "failed to update ref"@,
    )
}

/// Whether a push failed because the remote branch has moved.
pub fn is_non_fast_forward_push_error(message: &str) -> (r: bool)
    ensures
        r == moved_remote(message@),
{
    text::contains(message, "non-fast-forward") || text::contains(message, "fetch first")
        || text::contains(message, "Updates were rejected because the remote contains work")
        || text::contains(message, "cannot lock ref") || text::contains(
        message,
        "failed to update ref",
    )
}

/// What a push does next.
#[derive(Debug)]
pub enum PushAction {
    /// Push, for this time after the first.
    Push { attempt: usize },
    /// Pull, since the remote branch has moved.
    Pull { attempt: usize },
    /// The branch is published.
    Pushed,
    /// The local commits were dropped: derive the ledger again.
    RestartSync,
    /// Give up.
    Fail { error: String },
}

/// What follows a push.
pub open spec fn push_after(attempt: usize, max_retries: usize, ran: Ran) -> PushAction {
    match ran {
        Ok(_) => PushAction::Pushed,
        Err(error) => if attempt < max_retries && moved_remote(error@) {
            PushAction::Pull { attempt }
        } else {
            PushAction::Fail { error }
        },
    }
}

/// What follows a push: where it failed because the remote branch has moved, the branch is pulled
/// and the push is tried again, as often as is allowed.
pub fn after_push(attempt: usize, max_retries: usize, ran: Ran) -> (r: PushAction)
    ensures
        r == push_after(attempt, max_retries, ran),
{
    match ran {
        Ok(_) => PushAction::Pushed,
        Err(error) => {
            if attempt < max_retries && is_non_fast_forward_push_error(error.as_str()) {
                PushAction::Pull { attempt }
            } else {
                PushAction::Fail { error }
            }
        },
    }
}

/// What follows a pull between two pushes.
pub fn after_pull(attempt: usize, max_retries: usize, pulled: Result<PullOutcome, String>) -> (r:
    PushAction)
    requires
        attempt < max_retries,
    ensures
        match pulled {
            Err(error) => r == (PushAction::Fail { error }),
            Ok(PullOutcome::ResetSyncCommits) => r is RestartSync,
            Ok(PullOutcome::Updated) => r == (PushAction::Push {
                attempt: (attempt + 1) as usize,
            }),
        },
{
    match pulled {
        Err(error) => PushAction::Fail { error },
        Ok(PullOutcome::ResetSyncCommits) => PushAction::RestartSync,
        Ok(PullOutcome::Updated) => PushAction::Push { attempt: attempt + 1 },
    }
}

/// A push is tried no more often than it may be: each further try counts one up, and the last
/// allowed one is not followed by a pull.
pub proof fn pushes_come_to_an_end(attempt: usize, max_retries: usize, ran: Ran)
    ensures
        push_after(attempt, max_retries, ran) is Pull ==> attempt < max_retries,
        attempt >= max_retries ==> !(push_after(attempt, max_retries, ran) is Pull),
{
}

/// What is said before a push is tried again.
pub fn retry_notice(branch: &str, attempt: usize, max_retries: usize) -> (r: String)
    requires
        attempt < max_retries < usize::MAX,
    ensures
        r@ == "Push of `"@ + branch@
            + "` was rejected as non-fast-forward; pulling and retrying ("@ + text::decimal(
            (attempt + 1) as nat,
        ) + "/"@ + text::decimal((max_retries + 1) as nat) + ")"@,
{
    let mut r = "Push of `".to_owned();
    r.append(branch);
    r.append("` was rejected as non-fast-forward; pulling and retrying (");
    r.append(text::number((attempt + 1) as u64).as_str());
    r.append("/");
    r.append(text::number((max_retries + 1) as u64).as_str());
    r.append(")");
    r
}

/// Counts how often the ledger was derived again, and gives up where that is too often.
pub fn restarted(count: usize) -> (r: Result<usize, String>)
    requires
        count < usize::MAX,
    ensures
        if count + 1 > SYNC_RESTART_LIMIT {
            r matches Err(e) && e@
                == "`polyresearch sync` had to discard local sync commits repeatedly while retrying push; rerun sync after the branch settles"@
        } else {
            r == Ok::<usize, String>((count + 1) as usize)
        },
{
    if count >= SYNC_RESTART_LIMIT {
        Err(
            "`polyresearch sync` had to discard local sync commits repeatedly while retrying push; rerun sync after the branch settles".to_owned(),
        )
    } else {
        Ok(count + 1)
    }
}

/// Goes ahead only on the default branch; a dry run goes ahead on any.
pub fn ensure_on_default_branch(current: &str, default_branch: &str, dry_run: bool) -> (r: Result<
    (),
    String,
>)
    ensures
        if dry_run || current@ == default_branch@ {
            r is Ok
        } else {
            r matches Err(e) && e@ == "`polyresearch sync` must run from the `"@ + default_branch@
                + "` branch"@
        },
{
    if dry_run || text::same(current, default_branch) {
        return Ok(());
    }
    let mut m = "`polyresearch sync` must run from the `".to_owned();
    m.append(default_branch);
    m.append("` branch");
    Err(m)
}

} // verus!
