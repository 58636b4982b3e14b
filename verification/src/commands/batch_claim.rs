//! Claims several theses at once.
use crate::commands::claim::ClaimOutput;
use crate::commands::contribute;
use crate::sort;
use crate::sort::Ranked;
use crate::state::{RepositoryState, ThesisState};
use crate::text;
use vstd::prelude::*;
use vstd::string::*;

verus! {

/// The theses that a node has claimed.
#[derive(Debug)]
pub struct BatchClaimOutput {
    pub node: String,
    pub active_claims: usize,
    pub claimed_count: usize,
    pub requested_count: usize,
    pub claims: Vec<ClaimOutput>,
}

/// A thesis that can be claimed: its number, and its place.
#[derive(Clone, Copy, Debug)]
pub struct Choice {
    pub number: u64,
    pub place: usize,
}

impl Ranked for Choice {
    open spec fn after(self, other: Self) -> bool {
        self.number > other.number
    }

    proof fn one_way(a: Self, b: Self) {
    }

    proof fn carries_over(a: Self, b: Self, c: Self) {
    }

    fn is_after(&self, other: &Self) -> (r: bool) {
        self.number > other.number
    }
}

/// The theses that a node may claim.
pub open spec fn choices(theses: Seq<ThesisState>, node: Seq<char>) -> Seq<Choice>
    decreases theses.len(),
{
    if theses.len() == 0 {
        Seq::empty()
    } else {
        let rest = choices(theses.drop_last(), node);
        let t = theses.last();
        if contribute::is_open_to(t, node) {
            rest.push(Choice { number: t.issue.number, place: (theses.len() - 1) as usize })
        } else {
            rest
        }
    }
}

/// The first of a list, at most as many as are asked for.
pub open spec fn at_most<T>(list: Seq<T>, count: nat) -> Seq<T> {
    if list.len() <= count {
        list
    } else {
        list.take(count as int)
    }
}

/// The places of the theses that a node is to claim: of those that it may claim the ones with the
/// lowest numbers, lowest first, at most as many as are asked for.
pub fn select_claimable_theses(repo_state: &RepositoryState, node: &str, count: usize) -> (r: Vec<
    usize,
>)
    ensures
        r@ == at_most(
            sort::sorted(choices(repo_state.theses@, node@)),
            count as nat,
        ).map_values(|c: Choice| c.place),
        forall|i: int| 0 <= i < r@.len() ==> #[trigger] r@[i] < repo_state.theses@.len(),
{
    let theses = &repo_state.theses;
    let mut found: Vec<Choice> = Vec::new();
    let mut i: usize = 0;
    assert(theses@.take(0).len() == 0);
    while i < theses.len()
        invariant
            i <= theses.len(),
            found@ == choices(theses@.take(i as int), node@),
            forall|k: int| 0 <= k < found@.len() ==> (#[trigger] found@[k]).place < theses.len(),
        decreases theses.len() - i,
    {
        proof {
            assert(theses@.take(i + 1).drop_last() =~= theses@.take(i as int));
            assert(theses@.take(i + 1).last() == theses@[i as int]);
        }
        if contribute::may_claim(&theses[i], node) {
            found.push(Choice { number: theses[i].issue.number, place: i });
        }
        i = i + 1;
    }
    assert(theses@.take(i as int) =~= theses@);
    let ghost all = found@;
    proof {
        sort::sorted_is_ordered_and_complete(all);
    }
    let ordered: Vec<Choice> = sort::sort(found);
    let ghost wanted = at_most(ordered@, count as nat).map_values(|c: Choice| c.place);
    let mut r: Vec<usize> = Vec::new();
    let mut k: usize = 0;
    assert(r@ =~= wanted.take(0));
    while k < ordered.len() && k < count
        invariant
            k <= ordered.len(),
            k <= count,
            ordered@ == sort::sorted(all),
            all.to_multiset() == ordered@.to_multiset(),
            forall|j: int| 0 <= j < all.len() ==> (#[trigger] all[j]).place < theses.len(),
            wanted == at_most(ordered@, count as nat).map_values(|c: Choice| c.place),
            r@ == wanted.take(k as int),
            forall|j: int| 0 <= j < r@.len() ==> #[trigger] r@[j] < theses.len(),
        decreases ordered.len() - k,
    {
        proof {
            broadcast use vstd::seq_lib::group_to_multiset_ensures;

            let c = ordered@[k as int];
            assert(ordered@.contains(c));
            assert(ordered@.to_multiset().count(c) > 0);
            assert(all.to_multiset().count(c) > 0);
            assert(all.contains(c));
            let j = choose|j: int| 0 <= j < all.len() && all[j] == c;
            assert(all[j].place < theses.len());
            assert(wanted[k as int] == c.place);
            assert(wanted.take(k + 1) =~= wanted.take(k as int).push(c.place));
        }
        r.push(ordered[k].place);
        k = k + 1;
    }
    assert(wanted.take(k as int) =~= wanted);
    r
}

/// The theses that are claimed are such as the node may claim.
pub proof fn choices_are_open(theses: Seq<ThesisState>, node: Seq<char>)
    requires
        theses.len() <= usize::MAX,
    ensures
        forall|i: int|
            0 <= i < choices(theses, node).len() ==> {
                let c = #[trigger] choices(theses, node)[i];
                c.place < theses.len() && theses[c.place as int].issue.number == c.number
                    && contribute::is_open_to(theses[c.place as int], node)
            },
    decreases theses.len(),
{
    if theses.len() > 0 {
        let rest = theses.drop_last();
        choices_are_open(rest, node);
        assert forall|i: int| 0 <= i < choices(theses, node).len() implies ({
            let c = #[trigger] choices(theses, node)[i];
            c.place < theses.len() && theses[c.place as int].issue.number == c.number
                && contribute::is_open_to(theses[c.place as int], node)
        }) by {
            if i < choices(rest, node).len() {
                let c = choices(rest, node)[i];
                assert(choices(theses, node)[i] == c);
                assert(rest[c.place as int] == theses[c.place as int]);
            }
        }
    }
}

/// How many theses are to be claimed; one where nothing is said.
pub fn requested_count(count: Option<usize>) -> (r: Result<usize, String>)
    ensures
        match count {
            Some(0) => r matches Err(e) && e@ == "batch-claim count must be at least 1"@,
            Some(n) => r == Ok::<usize, String>(n),
            None => r == Ok::<usize, String>(1),
        },
{
    match count {
        Some(0) => Err("batch-claim count must be at least 1".to_owned()),
        Some(n) => Ok(n),
        None => Ok(1),
    }
}

/// The numbers of claimed theses, as they are listed.
pub open spec fn claimed_numbers(claims: Seq<ClaimOutput>) -> Seq<Seq<char>> {
    claims.map_values(|c: ClaimOutput| "#"@ + text::decimal(c.issue as nat))
}

/// What is said where a thesis could not be claimed, after others were or were not.
pub fn claim_failure(claims: &Vec<ClaimOutput>, number: u64, error: String) -> (r: String)
    ensures
        r@ == (if claims@.len() == 0 {
            error@
        } else {
            "batch-claim partially succeeded; claimed theses "@ + text::joined(
                claimed_numbers(claims@),
                ", "@,
            ) + " before failing on thesis #"@ + text::decimal(number as nat) + ": "@ + error@
        }),
{
    if claims.len() == 0 {
        return error;
    }
    let ghost all = claimed_numbers(claims@);
    let mut numbers: Vec<String> = Vec::new();
    let mut i: usize = 0;
    assert(text::texts(numbers@) =~= all.take(0));
    while i < claims.len()
        invariant
            i <= claims.len(),
            all == claimed_numbers(claims@),
            text::texts(numbers@) == all.take(i as int),
        decreases claims.len() - i,
    {
        let mut entry = "#".to_owned();
        entry.append(text::number(claims[i].issue).as_str());
        let ghost before = numbers@;
        numbers.push(entry);
        proof {
            text::lemma_texts_push(before, numbers@.last());
            assert(all.take(i + 1) =~= all.take(i as int).push(all[i as int]));
        }
        i = i + 1;
    }
    assert(all.take(i as int) =~= all);
    let mut m = "batch-claim partially succeeded; claimed theses ".to_owned();
    m.append(text::join(&numbers, ", ").as_str());
    m.append(" before failing on thesis #");
    m.append(text::number(number).as_str());
    m.append(": ");
    m.append(error.as_str());
    m
}

/// A claim as it is listed.
pub open spec fn claim_entry(c: ClaimOutput) -> Seq<char> {
    "  - thesis #"@ + text::decimal(c.issue as nat) + " on branch `"@ + c.branch@
        + "` in worktree `"@ + c.worktree_path@ + "`"@
}

impl BatchClaimOutput {
    /// The counts, between texts.
    pub open spec fn counted(&self, start: Seq<char>, end: Seq<char>) -> Seq<char> {
        start + text::decimal(self.claimed_count as nat) + " of "@ + text::decimal(
            self.requested_count as nat,
        ) + " requested thesis slots for node `"@ + self.node@ + "` ("@ + text::decimal(
            self.active_claims as nat,
        ) + end
    }

    /// The output as it is shown.
    pub open spec fn shown(&self, dry_run: bool) -> Seq<char> {
        if self.claims@.len() == 0 {
            "No claimable theses available for node `"@ + self.node@ + "` (requested "@
                + text::decimal(self.requested_count as nat) + ")."@
        } else {
            let header = if dry_run {
                self.counted("Would claim "@, " already active)."@)
            } else {
                self.counted("Claimed "@, " already active before)."@)
            };
            header + "\n"@ + text::joined(
                self.claims@.map_values(|c: ClaimOutput| claim_entry(c)),
                "\n"@,
            )
        }
    }

    fn count(&self, start: &str, end: &str) -> (r: String)
        ensures
            r@ == self.counted(start@, end@),
    {
        let mut r = text::say(start, self.claimed_count as u64, " of ");
        r.append(text::number(self.requested_count as u64).as_str());
        r.append(" requested thesis slots for node `");
        r.append(self.node.as_str());
        r.append("` (");
        r.append(text::number(self.active_claims as u64).as_str());
        r.append(end);
        r
    }

    /// The output as it is shown.
    pub fn text(&self, dry_run: bool) -> (r: String)
        ensures
            r@ == self.shown(dry_run),
    {
        if self.claims.len() == 0 {
            let mut m = "No claimable theses available for node `".to_owned();
            m.append(self.node.as_str());
            m.append("` (requested ");
            m.append(text::number(self.requested_count as u64).as_str());
            m.append(").");
            return m;
        }
        let mut header = if dry_run {
            self.count("Would claim ", " already active).")
        } else {
            self.count("Claimed ", " already active before).")
        };
        let ghost all = self.claims@.map_values(|c: ClaimOutput| claim_entry(c));
        let mut lines: Vec<String> = Vec::new();
        let mut i: usize = 0;
        assert(text::texts(lines@) =~= all.take(0));
        while i < self.claims.len()
            invariant
                i <= self.claims.len(),
                all == self.claims@.map_values(|c: ClaimOutput| claim_entry(c)),
                text::texts(lines@) == all.take(i as int),
            decreases self.claims.len() - i,
        {
            let c = &self.claims[i];
            let mut line = text::say("  - thesis #", c.issue, " on branch `");
            line.append(c.branch.as_str());
            line.append("` in worktree `");
            line.append(c.worktree_path.as_str());
            line.append("`");
            let ghost before = lines@;
            lines.push(line);
            proof {
                text::lemma_texts_push(before, lines@.last());
                assert(all.take(i + 1) =~= all.take(i as int).push(all[i as int]));
            }
            i = i + 1;
        }
        assert(all.take(i as int) =~= all);
        header.append("\n");
        header.append(text::join(&lines, "\n").as_str());
        header
    }
}

} // verus!
