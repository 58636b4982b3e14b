//! Keeps a run that is to make one cycle from making a second.
use crate::paths;
use crate::text;
use vstd::prelude::*;
use vstd::string::*;

verus! {

/// The variable that names the guard's file.
pub const GUARD_ENV_VAR: &'static str = "POLYRESEARCH_ONCE_GUARD";

/// What the guard's file holds while the cycle is made.
pub const ACTIVE_STATE: &'static str = "active";

/// What the guard's file holds once the cycle was made.
pub const DONE_STATE: &'static str = "done";

/// The guard's file.
pub fn guard_path(repo_root: &str) -> (r: String)
    ensures
        r@ == paths::joined(paths::joined(repo_root@, ".polyresearch"@), ".once-guard"@),
{
    let dir = paths::join(repo_root, ".polyresearch");
    paths::join(dir.as_str(), ".once-guard")
}

/// The cycle was made.
pub open spec fn is_done(state: Option<&str>) -> bool {
    state matches Some(s) && text::trimmed(s@) == DONE_STATE@
}

/// Goes ahead only where the cycle was not made; a guard that is not there guards nothing.
pub fn check_cycle_limit(state: Option<&str>) -> (r: Result<(), String>)
    ensures
        if is_done(state) {
            r matches Err(e) && e@
                == "--once cycle limit reached: one thesis cycle is already complete"@
        } else {
            r is Ok
        },
{
    match state {
        Some(s) => {
            if text::same(text::trim(s), DONE_STATE) {
                return Err(
                    "--once cycle limit reached: one thesis cycle is already complete".to_owned(),
                );
            }
            Ok(())
        },
        None => Ok(()),
    }
}

/// A new guard lets the cycle be made, and one that was marked as done does not.
pub proof fn a_guard_allows_one_cycle()
    ensures
        !is_done(Some(ACTIVE_STATE)),
        is_done(Some(DONE_STATE)),
{
    reveal_strlit("active");
    reveal_strlit("done");
    assert(ACTIVE_STATE@.len() == 6);
    assert(DONE_STATE@.len() == 4);
    assert(ACTIVE_STATE@[0] == 'a' && ACTIVE_STATE@[5] == 'e');
    assert(DONE_STATE@[0] == 'd' && DONE_STATE@[3] == 'e');
    text::lemma_trimmed_already(ACTIVE_STATE@);
    text::lemma_trimmed_already(DONE_STATE@);
}

} // verus!
