//! What must hold before a command goes ahead.
use crate::commands::duties;
use crate::comments::ReleaseReason;
use crate::config::ProtocolConfig;
use crate::ledger::Ledger;
use crate::state::{PullRequestState, RepositoryState, ThesisPhase, ThesisState};
use crate::text;
use crate::validation;
use vstd::prelude::*;
use vstd::string::*;

verus! {

/// Why a command for the lead is refused.
pub open spec fn lead_refusal(config: ProtocolConfig, login: Seq<char>) -> Option<Seq<char>> {
    match config.lead_github_login {
        None => Some("lead_github_login is required in PROGRAM.md"@),
        Some(lead) => if lead@ == login {
            None
        } else {
            Some(
                "this command is lead-only; current GitHub login is `"@ + login
                    + "`, but `lead_github_login` is `"@ + lead@ + "`"@,
            )
        },
    }
}

/// Goes ahead only for the lead.
pub fn ensure_lead(config: &ProtocolConfig, login: &str) -> (r: Result<String, String>)
    ensures
        match lead_refusal(*config, login@) {
            Some(e) => r matches Err(m) && m@ == e,
            None => r matches Ok(t) && t@ == login@,
        },
{
    let expected = config.lead_login()?;
    if !text::same(login, expected.as_str()) {
        let mut m = "this command is lead-only; current GitHub login is `".to_owned();
        m.append(login);
        m.append("`, but `lead_github_login` is `");
        m.append(expected.as_str());
        m.append("`");
        return Err(m);
    }
    Ok(login.to_owned())
}

/// The thesis with a number.
pub open spec fn thesis_found(s: RepositoryState, number: u64) -> Result<ThesisState, Seq<char>> {
    match RepositoryState::thesis_at(s.theses@, number, 0) {
        Some(i) => Ok(s.theses@[i]),
        None => Err("thesis #"@ + text::decimal(number as nat) + " not found"@),
    }
}

/// The result is what was found, or says why not.
pub open spec fn gives<T>(r: Result<&T, String>, found: Result<T, Seq<char>>) -> bool {
    match found {
        Ok(t) => r == Ok::<&T, String>(&t),
        Err(e) => r matches Err(m) && m@ == e,
    }
}

/// The thesis with a number.
pub fn find_thesis(repo_state: &RepositoryState, issue_number: u64) -> (r: Result<
    &ThesisState,
    String,
>)
    ensures
        gives(r, thesis_found(*repo_state, issue_number)),
{
    match repo_state.get_thesis(issue_number) {
        Some(t) => Ok(t),
        None => Err(text::say("thesis #", issue_number, " not found")),
    }
}

/// The thesis with a number, where it can be claimed.
pub open spec fn claimable_thesis(s: RepositoryState, number: u64) -> Result<
    ThesisState,
    Seq<char>,
> {
    let n = text::decimal(number as nat);
    match thesis_found(s, number) {
        Err(e) => Err(e),
        Ok(t) => if t.issue.state@ != "OPEN"@ {
            Err("thesis #"@ + n + " is not open"@)
        } else if !t.approved {
            Err("thesis #"@ + n + " is not approved yet"@)
        } else if t.phase != ThesisPhase::Approved {
            Err("thesis #"@ + n + " is not claimable; current state is "@ + t.phase.name())
        } else {
            Ok(t)
        },
    }
}

/// The thesis with a number, where it can be claimed.
pub fn require_claimable_thesis(repo_state: &RepositoryState, issue_number: u64) -> (r: Result<
    &ThesisState,
    String,
>)
    ensures
        gives(r, claimable_thesis(*repo_state, issue_number)),
{
    let thesis = find_thesis(repo_state, issue_number)?;
    if !text::same(thesis.issue.state.as_str(), "OPEN") {
        return Err(text::say("thesis #", issue_number, " is not open"));
    }
    if !thesis.approved {
        return Err(text::say("thesis #", issue_number, " is not approved yet"));
    }
    match &thesis.phase {
        ThesisPhase::Approved => Ok(thesis),
        phase => {
            let mut m = text::say(
                "thesis #",
                issue_number,
                " is not claimable; current state is ",
            );
            m.append(phase.to_name().as_str());
            Err(m)
        },
    }
}

/// The thesis with a number, where a node holds it.
pub open spec fn claimed_thesis(s: RepositoryState, number: u64, node: Seq<char>) -> Result<
    ThesisState,
    Seq<char>,
> {
    let n = text::decimal(number as nat);
    match thesis_found(s, number) {
        Err(e) => Err(e),
        Ok(t) => if t.issue.state@ != "OPEN"@ {
            Err("thesis #"@ + n + " is closed"@)
        } else if !t.held_by(node) {
            Err("thesis #"@ + n + " is not currently claimed by node `"@ + node + "`"@)
        } else {
            Ok(t)
        },
    }
}

/// The thesis with a number, where a node holds it.
pub fn require_claimed_thesis<'a>(
    repo_state: &'a RepositoryState,
    issue_number: u64,
    node: &str,
) -> (r: Result<&'a ThesisState, String>)
    ensures
        gives(r, claimed_thesis(*repo_state, issue_number, node@)),
{
    let thesis = find_thesis(repo_state, issue_number)?;
    if !text::same(thesis.issue.state.as_str(), "OPEN") {
        return Err(text::say("thesis #", issue_number, " is closed"));
    }
    if !thesis.is_claimed_by(node) {
        let mut m = text::say(
            "thesis #",
            issue_number,
            " is not currently claimed by node `",
        );
        m.append(node);
        m.append("`");
        return Err(m);
    }
    Ok(thesis)
}

/// The candidate with a number, and its thesis.
pub open spec fn candidate_found(s: RepositoryState, number: u64) -> Result<
    (ThesisState, PullRequestState),
    Seq<char>,
> {
    match RepositoryState::thesis_of_candidate(s.theses@, number, 0) {
        Some((i, k)) => Ok((s.theses@[i], s.theses@[i].pull_requests@[k])),
        None => Err("PR #"@ + text::decimal(number as nat) + " not found"@),
    }
}

/// The result is the pair that was found, or says why not.
pub open spec fn gives_pair(
    r: Result<(&ThesisState, &PullRequestState), String>,
    found: Result<(ThesisState, PullRequestState), Seq<char>>,
) -> bool {
    match found {
        Ok((t, p)) => r == Ok::<(&ThesisState, &PullRequestState), String>((&t, &p)),
        Err(e) => r matches Err(m) && m@ == e,
    }
}

/// The candidate with a number, and its thesis.
pub fn require_pull_request(repo_state: &RepositoryState, pr_number: u64) -> (r: Result<
    (&ThesisState, &PullRequestState),
    String,
>)
    ensures
        gives_pair(r, candidate_found(*repo_state, pr_number)),
{
    match repo_state.get_pull_request(pr_number) {
        Some(found) => Ok(found),
        None => Err(text::say("PR #", pr_number, " not found")),
    }
}

/// The candidate with a number, where someone may review it.
pub open spec fn reviewable_pr(s: RepositoryState, number: u64, login: Seq<char>) -> Result<
    (ThesisState, PullRequestState),
    Seq<char>,
> {
    let n = text::decimal(number as nat);
    match candidate_found(s, number) {
        Err(e) => Err(e),
        Ok((t, p)) => if !p.policy_pass {
            Err("PR #"@ + n + " has not passed policy check yet"@)
        } else if p.decision is Some {
            Err("PR #"@ + n + " already has a decision"@)
        } else if validation::opened_by(p.pr, login) {
            Err("you cannot review your own PR"@)
        } else {
            Ok((t, p))
        },
    }
}

/// The candidate with a number, where someone may review it.
pub fn require_reviewable_pr<'a>(
    repo_state: &'a RepositoryState,
    pr_number: u64,
    reviewer_login: &str,
) -> (r: Result<(&'a ThesisState, &'a PullRequestState), String>)
    ensures
        gives_pair(r, reviewable_pr(*repo_state, pr_number, reviewer_login@)),
{
    let (thesis, pr_state) = require_pull_request(repo_state, pr_number)?;
    if !pr_state.policy_pass {
        return Err(text::say("PR #", pr_number, " has not passed policy check yet"));
    }
    if pr_state.decision.is_some() {
        return Err(text::say("PR #", pr_number, " already has a decision"));
    }
    let mine = match &pr_state.pr.author {
        Some(a) => text::same(a.login.as_str(), reviewer_login),
        None => false,
    };
    if mine {
        return Err("you cannot review your own PR".to_owned());
    }
    Ok((thesis, pr_state))
}

/// The candidate with a number, where a node has claimed its review.
pub open spec fn claimed_review_pr(s: RepositoryState, number: u64, node: Seq<char>) -> Result<
    (ThesisState, PullRequestState),
    Seq<char>,
> {
    match candidate_found(s, number) {
        Err(e) => Err(e),
        Ok((t, p)) => if !duties::claimed_review(p, node) {
            Err(
                "PR #"@ + text::decimal(number as nat) + " has not been review-claimed by node `"@
                    + node + "`"@,
            )
        } else {
            Ok((t, p))
        },
    }
}

/// The candidate with a number, where a node has claimed its review.
pub fn require_claimed_review_pr<'a>(
    repo_state: &'a RepositoryState,
    pr_number: u64,
    node: &str,
) -> (r: Result<(&'a ThesisState, &'a PullRequestState), String>)
    ensures
        gives_pair(r, claimed_review_pr(*repo_state, pr_number, node@)),
{
    let (thesis, pr_state) = require_pull_request(repo_state, pr_number)?;
    if !duties::has_claimed_review(pr_state, node) {
        let mut m = text::say("PR #", pr_number, " has not been review-claimed by node `");
        m.append(node);
        m.append("`");
        return Err(m);
    }
    Ok((thesis, pr_state))
}

/// The candidate with a number, where it can be decided.
pub open spec fn decidable_pr(s: RepositoryState, number: u64) -> Result<
    (ThesisState, PullRequestState),
    Seq<char>,
> {
    let n = text::decimal(number as nat);
    match candidate_found(s, number) {
        Err(e) => Err(e),
        Ok((t, p)) => if p.decision is Some {
            Err("PR #"@ + n + " already has a decision"@)
        } else if !p.policy_pass {
            Err("PR #"@ + n + " has not passed policy-check yet"@)
        } else {
            Ok((t, p))
        },
    }
}

/// The candidate with a number, where it can be decided.
pub fn require_decidable_pr(repo_state: &RepositoryState, pr_number: u64) -> (r: Result<
    (&ThesisState, &PullRequestState),
    String,
>)
    ensures
        gives_pair(r, decidable_pr(*repo_state, pr_number)),
{
    let (thesis, pr_state) = require_pull_request(repo_state, pr_number)?;
    if pr_state.decision.is_some() {
        return Err(text::say("PR #", pr_number, " already has a decision"));
    }
    if !pr_state.policy_pass {
        return Err(text::say("PR #", pr_number, " has not passed policy-check yet"));
    }
    Ok((thesis, pr_state))
}

/// Why an action is refused while findings stand.
pub open spec fn audit_refusal(s: RepositoryState, action: Seq<char>) -> Option<Seq<char>> {
    if s.audit_findings@.len() == 0 {
        None
    } else {
        Some(
            "cannot "@ + action
                + " while audit findings are present; run `polyresearch audit` and resolve them through `polyresearch admin ...` first"@,
        )
    }
}

/// Goes ahead only where no finding stands.
pub fn ensure_clean_audit(repo_state: &RepositoryState, action: &str) -> (r: Result<(), String>)
    ensures
        match audit_refusal(*repo_state, action@) {
            Some(e) => r matches Err(m) && m@ == e,
            None => r is Ok,
        },
{
    if repo_state.audit_findings.len() > 0 {
        let mut m = "cannot ".to_owned();
        m.append(action);
        m.append(
            " while audit findings are present; run `polyresearch audit` and resolve them through `polyresearch admin ...` first",
        );
        return Err(m);
    }
    Ok(())
}

/// What is said of a ledger that lacks rows.
pub open spec fn stale_ledger() -> Seq<char> {
    "results.tsv is stale; run `polyresearch sync` before proceeding"@
}

/// Goes ahead only where the ledger was read and lacks no row.
pub fn ensure_current_ledger(ledger: Result<Ledger, String>, repo_state: &RepositoryState) -> (r:
    Result<Ledger, String>)
    ensures
        match ledger {
            Err(e) => r == Err::<Ledger, String>(e),
            Ok(l) => if l.current(*repo_state) {
                r == Ok::<Ledger, String>(l)
            } else {
                r matches Err(m) && m@ == stale_ledger()
            },
        },
{
    let ledger = ledger?;
    if !ledger.is_current(repo_state) {
        return Err("results.tsv is stale; run `polyresearch sync` before proceeding".to_owned());
    }
    Ok(ledger)
}

/// Goes ahead only for the lead, where no finding stands and the ledger lacks no row.
pub fn ensure_lead_ready(
    config: &ProtocolConfig,
    login: &str,
    repo_state: &RepositoryState,
    ledger: Result<Ledger, String>,
) -> (r: Result<(String, Ledger), String>)
    ensures
        match lead_refusal(*config, login@) {
            Some(e) => r matches Err(m) && m@ == e,
            None => match audit_refusal(*repo_state, "proceed"@) {
                Some(e) => r matches Err(m) && m@ == e,
                None => match ledger {
                    Err(e) => r == Err::<(String, Ledger), String>(e),
                    Ok(l) => if l.current(*repo_state) {
                        r matches Ok((t, kept)) && t@ == login@ && kept == l
                    } else {
                        r matches Err(m) && m@ == stale_ledger()
                    },
                },
            },
        },
{
    let login = ensure_lead(config, login)?;
    ensure_clean_audit(repo_state, "proceed")?;
    let ledger = ensure_current_ledger(ledger, repo_state)?;
    Ok((login, ledger))
}

/// Whether to close a thesis once it was released: where no improvement was found and nobody is
/// left who holds it.
pub fn close_if_exhausted(updated: &RepositoryState, issue: u64, reason: ReleaseReason) -> (r: bool)
    ensures
        r == (reason == ReleaseReason::NoImprovement && match thesis_found(*updated, issue) {
            Ok(t) => t.phase == ThesisPhase::Exhausted,
            Err(_) => false,
        }),
{
    if reason != ReleaseReason::NoImprovement {
        return false;
    }
    match updated.get_thesis(issue) {
        Some(t) => match t.phase {
            ThesisPhase::Exhausted => true,
            _ => false,
        },
        None => false,
    }
}

} // verus!
