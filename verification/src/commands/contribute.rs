//! Which theses a contributor may take, and how its agent is run.
use crate::commands::duties;
use crate::comments::ReleaseReason;
use crate::paths;
use crate::state::{ReleaseRecord, RepositoryState, ThesisPhase, ThesisState};
use crate::text;
use crate::time::Timestamp;
use vstd::prelude::*;
use vstd::string::*;

verus! {

/// The longest time for which a thesis is left alone after crashes.
pub const MAX_CRASH_COOLDOWN_SECS: u64 = 3600;

/// The release was due to a crash of the node.
pub open spec fn is_crash(r: ReleaseRecord, node: Seq<char>) -> bool {
    r.node@ == node && (r.reason == ReleaseReason::InfraFailure || r.reason
        == ReleaseReason::Timeout)
}

/// How often the node has crashed.
pub open spec fn crashes(releases: Seq<ReleaseRecord>, node: Seq<char>) -> nat
    decreases releases.len(),
{
    if releases.len() == 0 {
        0
    } else {
        crashes(releases.drop_last(), node) + (if is_crash(releases.last(), node) {
            1nat
        } else {
            0nat
        })
    }
}

/// When the node crashed last.
pub open spec fn last_crash(releases: Seq<ReleaseRecord>, node: Seq<char>) -> Option<Timestamp>
    decreases releases.len(),
{
    if releases.len() == 0 {
        None
    } else {
        let rest = last_crash(releases.drop_last(), node);
        if is_crash(releases.last(), node) {
            match rest {
                Some(t) => Some(t.latest(releases.last().created_at)),
                None => Some(releases.last().created_at),
            }
        } else {
            rest
        }
    }
}

/// A number doubled as often as is said.
pub open spec fn doubled(n: int, times: nat) -> int
    decreases times,
{
    if times == 0 {
        n
    } else {
        2 * doubled(n, (times - 1) as nat)
    }
}

/// The time for which a thesis is left alone: the base for one crash, doubled for each further
/// one, and at most the longest.
pub open spec fn cooldown(base: u64, count: nat) -> int
    recommends
        count > 0,
{
    let secs = doubled(base as int, (count - 1) as nat);
    if secs < MAX_CRASH_COOLDOWN_SECS {
        secs
    } else {
        MAX_CRASH_COOLDOWN_SECS as int
    }
}

/// The node has crashed on the thesis so lately, or so often, that it leaves the thesis alone.
pub open spec fn cools_down(t: ThesisState, node: Seq<char>, base: u64, now: Timestamp) -> bool {
    match last_crash(t.releases@, node) {
        None => false,
        Some(last) => now.nanos_since(last) < cooldown(base, crashes(t.releases@, node))
            * 1_000_000_000,
    }
}

proof fn lemma_crashes(releases: Seq<ReleaseRecord>, node: Seq<char>)
    ensures
        last_crash(releases, node) is Some <==> crashes(releases, node) > 0,
    decreases releases.len(),
{
    if releases.len() > 0 {
        lemma_crashes(releases.drop_last(), node);
    }
}

proof fn lemma_doubled_grows(n: int, a: nat, b: nat)
    requires
        n >= 0,
        a <= b,
    ensures
        0 <= doubled(n, a) <= doubled(n, b),
    decreases b,
{
    if a < b {
        lemma_doubled_grows(n, a, (b - 1) as nat);
    } else if b > 0 {
        lemma_doubled_grows(n, (a - 1) as nat, (b - 1) as nat);
    }
}

/// The more often a node has crashed, the longer it leaves the thesis alone, but never longer than
/// the longest time.
pub proof fn cooldown_grows_up_to_its_limit(base: u64, a: nat, b: nat)
    requires
        0 < a <= b,
    ensures
        0 <= cooldown(base, a) <= cooldown(base, b) <= MAX_CRASH_COOLDOWN_SECS,
{
    lemma_doubled_grows(base as int, (a - 1) as nat, (b - 1) as nat);
}

/// The time for which a thesis is left alone.
pub fn cooldown_secs(base: u64, count: usize) -> (r: u64)
    requires
        count > 0,
    ensures
        r == cooldown(base, count as nat),
{
    let mut secs: u64 = if base < MAX_CRASH_COOLDOWN_SECS {
        base
    } else {
        MAX_CRASH_COOLDOWN_SECS
    };
    let mut i: usize = 1;
    while i < count
        invariant
            1 <= i <= count,
            secs <= MAX_CRASH_COOLDOWN_SECS,
            secs == cooldown(base, i as nat),
        decreases count - i,
    {
        proof {
            lemma_doubled_grows(base as int, (i - 1) as nat, i as nat);
            assert(doubled(base as int, i as nat) == 2 * doubled(base as int, (i - 1) as nat));
        }
        secs = if secs * 2 < MAX_CRASH_COOLDOWN_SECS {
            secs * 2
        } else {
            MAX_CRASH_COOLDOWN_SECS
        };
        i = i + 1;
    }
    secs
}

/// Whether a node leaves a thesis alone because it has crashed on it.
pub fn is_crash_cooldown(
    thesis: &ThesisState,
    node_id: &str,
    base_cooldown_secs: u64,
    now: Timestamp,
) -> (r: bool)
    ensures
        r == cools_down(*thesis, node_id@, base_cooldown_secs, now),
{
    let releases = &thesis.releases;
    let mut count: usize = 0;
    let mut last: Option<Timestamp> = None;
    let mut i: usize = 0;
    assert(releases@.take(0).len() == 0);
    while i < releases.len()
        invariant
            count <= i <= releases.len(),
            count == crashes(releases@.take(i as int), node_id@),
            last == last_crash(releases@.take(i as int), node_id@),
        decreases releases.len() - i,
    {
        let r = &releases[i];
        proof {
            assert(releases@.take(i + 1).drop_last() =~= releases@.take(i as int));
            assert(releases@.take(i + 1).last() == releases@[i as int]);
        }
        if text::same(r.node.as_str(), node_id) && (r.reason == ReleaseReason::InfraFailure
            || r.reason == ReleaseReason::Timeout) {
            count = count + 1;
            last = match last {
                Some(t) => if t.before(&r.created_at) {
                    Some(r.created_at)
                } else {
                    Some(t)
                },
                None => Some(r.created_at),
            };
        }
        i = i + 1;
    }
    proof {
        assert(releases@.take(i as int) =~= releases@);
        lemma_crashes(releases@, node_id@);
    }
    match last {
        None => false,
        Some(t) => {
            let secs: u64 = cooldown_secs(base_cooldown_secs, count);
            now.since(&t) < secs as i128 * 1_000_000_000
        },
    }
}

/// The node may claim the thesis.
pub open spec fn is_open_to(t: ThesisState, node: Seq<char>) -> bool {
    &&& t.issue.state@ == "OPEN"@
    &&& t.approved
    &&& t.phase == ThesisPhase::Approved
    &&& t.active_claims@.len() == 0
    &&& !duties::gave_up(t.releases@, node)
}

/// Whether a node may claim a thesis.
pub fn may_claim(t: &ThesisState, node: &str) -> (r: bool)
    ensures
        r == is_open_to(*t, node@),
{
    let approved = match t.phase {
        ThesisPhase::Approved => true,
        _ => false,
    };
    text::same(t.issue.state.as_str(), "OPEN") && t.approved && approved && t.active_claims.len()
        == 0 && !duties::has_given_up(&t.releases, node)
}

/// The theses that a node may claim and does not leave alone, in order.
pub open spec fn offered(theses: Seq<ThesisState>, node: Seq<char>, base: u64, now: Timestamp) -> Seq<
    ThesisState,
>
    decreases theses.len(),
{
    if theses.len() == 0 {
        Seq::empty()
    } else {
        let rest = offered(theses.drop_last(), node, base, now);
        if is_open_to(theses.last(), node) && !cools_down(theses.last(), node, base, now) {
            rest.push(theses.last())
        } else {
            rest
        }
    }
}

/// The theses that a node may claim and does not leave alone, in order.
pub fn claimable_theses<'a>(
    repo_state: &'a RepositoryState,
    node_id: &str,
    base_cooldown_secs: u64,
    now: Timestamp,
) -> (r: Vec<&'a ThesisState>)
    ensures
        r@.map_values(|t: &ThesisState| *t) == offered(
            repo_state.theses@,
            node_id@,
            base_cooldown_secs,
            now,
        ),
{
    let theses = &repo_state.theses;
    let mut r: Vec<&'a ThesisState> = Vec::new();
    let mut i: usize = 0;
    proof {
        assert(theses@.take(0).len() == 0);
        assert(r@.map_values(|t: &ThesisState| *t) =~= Seq::<ThesisState>::empty());
    }
    while i < theses.len()
        invariant
            i <= theses.len(),
            r@.map_values(|t: &ThesisState| *t) == offered(
                theses@.take(i as int),
                node_id@,
                base_cooldown_secs,
                now,
            ),
        decreases theses.len() - i,
    {
        proof {
            assert(theses@.take(i + 1).drop_last() =~= theses@.take(i as int));
            assert(theses@.take(i + 1).last() == theses@[i as int]);
        }
        if may_claim(&theses[i], node_id) && !is_crash_cooldown(
            &theses[i],
            node_id,
            base_cooldown_secs,
            now,
        ) {
            let ghost before = r@;
            r.push(&theses[i]);
            assert(r@.map_values(|t: &ThesisState| *t) =~= before.map_values(
                |t: &ThesisState| *t,
            ).push(theses@[i as int]));
        }
        i = i + 1;
    }
    assert(theses@.take(i as int) =~= theses@);
    r
}

/// The directory of a contributor's clone: where it stands, if that is a repository, else a
/// directory of the upstream's name in it.
pub fn clone_target(repo_root: &str, is_repository: bool, name: &str) -> (r: String)
    ensures
        r@ == (if is_repository {
            repo_root@
        } else {
            paths::joined(repo_root@, name@)
        }),
{
    if is_repository {
        repo_root.to_owned()
    } else {
        paths::join(repo_root, name)
    }
}

/// What a contributor does after its agent.
#[derive(Debug)]
pub enum ContributeAction {
    /// Be done.
    Stop,
    /// Wait, then run the agent again.
    Pause,
    /// Give up.
    Fail { message: String },
}

/// What a contributor does after its agent, and what it says before. A failed agent is started
/// again, unless it was to run only once.
pub fn after_agent(failure: Option<String>, once: bool, sleep_secs: u64) -> (r: (
    Vec<String>,
    ContributeAction,
))
    ensures
        match failure {
            None => text::texts(r.0@).len() == 0 && r.1 is Stop,
            Some(m) => if once {
                text::texts(r.0@) == seq!["Contributor agent failed: "@ + m@] && r.1
                    == (ContributeAction::Fail { message: m })
            } else {
                text::texts(r.0@) == seq![
                    "Contributor agent failed: "@ + m@,
                    "Restarting in "@ + text::decimal(sleep_secs as nat) + "s..."@,
                ] && r.1 is Pause
            },
        },
{
    match failure {
        None => {
            let told: Vec<String> = Vec::new();
            (told, ContributeAction::Stop)
        },
        Some(message) => {
            let mut first = "Contributor agent failed: ".to_owned();
            first.append(message.as_str());
            if once {
                let told = vec![first];
                assert(text::texts(told@) =~= seq!["Contributor agent failed: "@ + message@]);
                (told, ContributeAction::Fail { message })
            } else {
                let second = text::say("Restarting in ", sleep_secs, "s...");
                let told = vec![first, second];
                assert(text::texts(told@) =~= seq![first@, second@]);
                (told, ContributeAction::Pause)
            }
        },
    }
}

} // verus!
