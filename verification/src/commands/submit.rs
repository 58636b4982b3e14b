//! Offers an improvement as a candidate.
use crate::commands::decide;
use crate::comments::Observation;
use crate::editable_surface;
use crate::editable_surface::EditableSurface;
use crate::state::{AttemptRecord, PullRequestState, ThesisState};
use crate::text;
use vstd::prelude::*;
use vstd::string::*;

verus! {

/// A candidate that was offered.
#[derive(Debug)]
pub struct SubmitOutput {
    pub issue: u64,
    pub branch: String,
    pub pr_number: u64,
    pub pr_url: Option<String>,
}

/// The place of the first attempt on a branch that improved the metric.
pub open spec fn improvement_at(attempts: Seq<AttemptRecord>, branch: Seq<char>, i: int) -> Option<int>
    decreases attempts.len() - i,
{
    if i >= attempts.len() {
        None
    } else if attempts[i].branch@ == branch && attempts[i].observation == Observation::Improved {
        Some(i)
    } else {
        improvement_at(attempts, branch, i + 1)
    }
}

/// A candidate from the branch is open.
pub open spec fn has_open_candidate(prs: Seq<PullRequestState>, branch: Seq<char>) -> bool {
    exists|i: int|
        0 <= i < prs.len() && (#[trigger] prs[i]).pr.head_ref_name@ == branch && prs[i].pr.state@
            == "OPEN"@
}

/// The attempt that can be offered, or why there is none.
pub open spec fn offer(t: ThesisState, branch: Seq<char>, issue: u64) -> Result<
    AttemptRecord,
    Seq<char>,
> {
    match improvement_at(t.attempts@, branch, 0) {
        None => Err(
            "current branch `"@ + branch
                + "` does not have an `improved` attempt recorded for thesis #"@ + text::decimal(
                issue as nat,
            ),
        ),
        Some(i) => if has_open_candidate(t.pull_requests@, branch) {
            Err("branch `"@ + branch + "` already has an open PR"@)
        } else {
            Ok(t.attempts@[i])
        },
    }
}

fn find_improvement(attempts: &Vec<AttemptRecord>, branch: &str) -> (r: Option<usize>)
    ensures
        match r {
            Some(i) => improvement_at(attempts@, branch@, 0) == Some(i as int) && i
                < attempts@.len(),
            None => improvement_at(attempts@, branch@, 0) is None,
        },
{
    let mut i: usize = 0;
    while i < attempts.len()
        invariant
            i <= attempts.len(),
            improvement_at(attempts@, branch@, 0) == improvement_at(
                attempts@,
                branch@,
                i as int,
            ),
        decreases attempts.len() - i,
    {
        if text::same(attempts[i].branch.as_str(), branch) && attempts[i].observation
            == Observation::Improved {
            return Some(i);
        }
        i = i + 1;
    }
    None
}

fn is_offered(prs: &Vec<PullRequestState>, branch: &str) -> (r: bool)
    ensures
        r == has_open_candidate(prs@, branch@),
{
    let mut i: usize = 0;
    while i < prs.len()
        invariant
            i <= prs.len(),
            forall|j: int|
                0 <= j < i ==> !((#[trigger] prs@[j]).pr.head_ref_name@ == branch@
                    && prs@[j].pr.state@ == "OPEN"@),
        decreases prs.len() - i,
    {
        if text::same(prs[i].pr.head_ref_name.as_str(), branch) && text::same(
            prs[i].pr.state.as_str(),
            "OPEN",
        ) {
            assert(prs@[i as int].pr.head_ref_name@ == branch@);
            return true;
        }
        i = i + 1;
    }
    false
}

/// The attempt that can be offered: the first improvement on the branch, where no candidate from
/// the branch is open.
pub fn submittable_attempt<'a>(thesis: &'a ThesisState, branch: &str, issue: u64) -> (r: Result<
    &'a AttemptRecord,
    String,
>)
    ensures
        match offer(*thesis, branch@, issue) {
            Ok(a) => r == Ok::<&AttemptRecord, String>(&a),
            Err(e) => r matches Err(m) && m@ == e,
        },
{
    match find_improvement(&thesis.attempts, branch) {
        None => {
            let mut m = "current branch `".to_owned();
            m.append(branch);
            m.append("` does not have an `improved` attempt recorded for thesis #");
            m.append(text::number(issue).as_str());
            Err(m)
        },
        Some(i) => {
            if is_offered(&thesis.pull_requests, branch) {
                let mut m = "branch `".to_owned();
                m.append(branch);
                m.append("` already has an open PR");
                return Err(m);
            }
            Ok(&thesis.attempts[i])
        },
    }
}

/// Goes ahead only where a branch has changed files, and only such as may be changed; `diff` lists
/// the changed paths.
pub fn ensure_submittable(
    surface: &EditableSurface,
    diff: &str,
    default_branch: &str,
    branch: &str,
    issue: u64,
) -> (r: Result<(), String>)
    ensures
        ({
            let paths = editable_surface::listed_paths(diff@);
            let bad = editable_surface::violations(surface.can(), surface.cannot(), paths);
            if paths.len() == 0 {
                r matches Err(e) && e@ == "branch `"@ + branch@
                    + "` has no file changes compared to `"@ + default_branch@
                    + "`; nothing to submit"@
            } else if !editable_surface::usable(surface.can()) {
                r matches Err(e) && editable_surface::tells_unusable(surface.can(), e@)
            } else if bad.len() > 0 {
                r matches Err(e) && e@ == "branch `"@ + branch@ + "` has "@ + text::decimal(
                    bad.len(),
                ) + " file(s) outside the editable surface: "@ + text::joined(bad, ", "@)
                    + ". Use `polyresearch commit "@ + text::decimal(issue as nat)
                    + "` to re-commit only editable changes."@
            } else {
                r is Ok
            }
        }),
{
    let paths = editable_surface::parse_output_lines(diff);
    assert(text::texts(paths@).len() == paths@.len());
    if paths.len() == 0 {
        let mut m = "branch `".to_owned();
        m.append(branch);
        m.append("` has no file changes compared to `");
        m.append(default_branch);
        m.append("`; nothing to submit");
        return Err(m);
    }
    let bad = surface.violations_for_paths(&paths)?;
    assert(text::texts(bad@).len() == bad@.len());
    if bad.len() > 0 {
        let mut m = "branch `".to_owned();
        m.append(branch);
        m.append("` has ");
        m.append(text::number(bad.len() as u64).as_str());
        m.append(" file(s) outside the editable surface: ");
        m.append(text::join(&bad, ", ").as_str());
        m.append(". Use `polyresearch commit ");
        m.append(text::number(issue).as_str());
        m.append("` to re-commit only editable changes.");
        return Err(m);
    }
    Ok(())
}

/// What a branch is compared with: the published default branch where there is one, else the local
/// one.
pub open spec fn base_of(default_branch: Seq<char>, published: bool) -> Seq<char> {
    if published {
        "origin/"@ + default_branch
    } else {
        default_branch
    }
}

/// The range of commits that a candidate holds.
pub fn diff_ref(default_branch: &str, published: bool) -> (r: String)
    ensures
        r@ == base_of(default_branch@, published) + "...HEAD"@,
{
    let mut r = if published {
        let mut remote = "origin/".to_owned();
        remote.append(default_branch);
        remote
    } else {
        default_branch.to_owned()
    };
    r.append("...HEAD");
    r
}

/// The title of a candidate.
pub fn candidate_title(issue: u64, title: &str) -> (r: String)
    ensures
        r@ == "Thesis #"@ + text::decimal(issue as nat) + ": "@ + title@,
{
    let mut r = text::say("Thesis #", issue, ": ");
    r.append(title);
    r
}

/// The description of a candidate.
pub open spec fn described(issue: u64, a: AttemptRecord) -> Seq<char> {
    "References #"@ + text::decimal(issue as nat) + "\n\nSelf-reported metric: "@ + a.metric.text@
        + "\nBaseline: "@ + (match a.baseline_metric {
        Some(b) => b.text@,
        None => "N/A"@,
    }) + "\nSummary: "@ + a.summary@
}

/// The description of a candidate.
pub fn candidate_body(issue: u64, attempt: &AttemptRecord) -> (r: String)
    ensures
        r@ == described(issue, *attempt),
{
    let mut r = text::say("References #", issue, "\n\nSelf-reported metric: ");
    r.append(attempt.metric.text.as_str());
    r.append("\nBaseline: ");
    match &attempt.baseline_metric {
        Some(b) => r.append(b.text.as_str()),
        None => r.append("N/A"),
    }
    r.append("\nSummary: ");
    r.append(attempt.summary.as_str());
    r
}

impl SubmitOutput {
    /// The output as it is shown.
    pub open spec fn shown(&self) -> Seq<char> {
        match self.pr_url {
            Some(url) => "Submitted thesis #"@ + text::decimal(self.issue as nat) + " from `"@
                + self.branch@ + "` as PR #"@ + text::decimal(self.pr_number as nat) + " ("@ + url@
                + ")."@,
            None => "Would submit thesis #"@ + text::decimal(self.issue as nat) + " from `"@
                + self.branch@ + "` as a candidate PR."@,
        }
    }

    /// The output as it is shown.
    pub fn text(&self) -> (r: String)
        ensures
            r@ == self.shown(),
    {
        match &self.pr_url {
            Some(url) => {
                let mut r = text::say("Submitted thesis #", self.issue, " from `");
                r.append(self.branch.as_str());
                r.append("` as PR #");
                r.append(text::number(self.pr_number).as_str());
                r.append(" (");
                r.append(url.as_str());
                r.append(").");
                r
            },
            None => {
                let mut r = text::say("Would submit thesis #", self.issue, " from `");
                r.append(self.branch.as_str());
                r.append("` as a candidate PR.");
                r
            },
        }
    }
}

proof fn lemma_improvement(attempts: Seq<AttemptRecord>, branch: Seq<char>, i: int)
    requires
        0 <= i,
        improvement_at(attempts, branch, i) is Some,
    ensures
        decide::attempt_at(attempts, branch, i) is Some,
    decreases attempts.len() - i,
{
    if i < attempts.len() && attempts[i].branch@ != branch {
        lemma_improvement(attempts, branch, i + 1);
    }
}

/// A candidate that could be offered has an attempt by which it can be decided.
pub proof fn offered_candidates_can_be_decided(t: ThesisState, branch: Seq<char>, issue: u64)
    requires
        offer(t, branch, issue) is Ok,
    ensures
        decide::attempt_at(t.attempts@, branch, 0) is Some,
{
    lemma_improvement(t.attempts@, branch, 0);
}

} // verus!
