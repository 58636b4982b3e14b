//! Tells what is not as the protocol wants it.
use crate::ledger::Ledger;
use crate::state::RepositoryState;
use crate::text;
use crate::validation;
use crate::validation::{AuditFinding, AuditScope, AuditSeverity, FindingView};
use vstd::prelude::*;
use vstd::string::*;

verus! {

/// What an audit found.
#[derive(Debug)]
pub struct AuditOutput {
    pub repo: String,
    pub ledger_current: bool,
    pub invalid_count: usize,
    pub suspicious_count: usize,
    pub info_count: usize,
    pub findings: Vec<AuditFinding>,
}

/// How many findings are this severe.
pub open spec fn count_of(findings: Seq<FindingView>, severity: AuditSeverity) -> nat
    decreases findings.len(),
{
    if findings.len() == 0 {
        0
    } else {
        count_of(findings.drop_last(), severity) + (if findings.last().severity == severity {
            1nat
        } else {
            0nat
        })
    }
}

/// How many findings are this severe.
pub fn count_findings(findings: &Vec<AuditFinding>, severity: AuditSeverity) -> (r: usize)
    ensures
        r == count_of(validation::finding_views(findings@), severity),
        r <= findings.len(),
{
    let ghost all = validation::finding_views(findings@);
    let mut n: usize = 0;
    let mut i: usize = 0;
    assert(all.take(0).len() == 0);
    while i < findings.len()
        invariant
            n <= i <= findings.len(),
            all == validation::finding_views(findings@),
            n == count_of(all.take(i as int), severity),
        decreases findings.len() - i,
    {
        proof {
            assert(all.take(i + 1).drop_last() =~= all.take(i as int));
            assert(all.take(i + 1).last() == findings@[i as int]@);
        }
        if findings[i].severity == severity {
            n = n + 1;
        }
        i = i + 1;
    }
    assert(all.take(i as int) =~= all);
    n
}

/// The finding that the ledger lacks rows.
pub open spec fn stale_finding() -> FindingView {
    FindingView {
        scope: AuditScope::Repository,
        severity: AuditSeverity::Info,
        message: "results.tsv is stale compared with canonical history"@,
        comment_id: None,
        author: None,
        created_at: None,
    }
}

/// The findings of an audit: those of the discussions, and that the ledger lacks rows where it
/// does.
pub open spec fn audited(s: RepositoryState, ledger: Ledger) -> Seq<FindingView> {
    let found = validation::finding_views(s.audit_findings@);
    if ledger.current(s) {
        found
    } else {
        found.push(stale_finding())
    }
}

/// What an audit finds.
pub fn audit(repo: String, repo_state: &RepositoryState, ledger: &Ledger) -> (r: AuditOutput)
    ensures
        r.repo == repo,
        r.ledger_current == ledger.current(*repo_state),
        validation::finding_views(r.findings@) == audited(*repo_state, *ledger),
        r.invalid_count == count_of(audited(*repo_state, *ledger), AuditSeverity::Invalid),
        r.suspicious_count == count_of(audited(*repo_state, *ledger), AuditSeverity::Suspicious),
        r.info_count == count_of(audited(*repo_state, *ledger), AuditSeverity::Info),
{
    let ledger_current = ledger.is_current(repo_state);
    let ghost all = validation::finding_views(repo_state.audit_findings@);
    let mut findings: Vec<AuditFinding> = Vec::new();
    let mut i: usize = 0;
    assert(validation::finding_views(findings@) =~= all.take(0));
    while i < repo_state.audit_findings.len()
        invariant
            i <= repo_state.audit_findings.len(),
            all == validation::finding_views(repo_state.audit_findings@),
            validation::finding_views(findings@) == all.take(i as int),
        decreases repo_state.audit_findings.len() - i,
    {
        let ghost before = findings@;
        findings.push(repo_state.audit_findings[i].clone());
        proof {
            assert(validation::finding_views(findings@) =~= validation::finding_views(
                before,
            ).push(findings@.last()@));
            assert(all.take(i + 1) =~= all.take(i as int).push(all[i as int]));
        }
        i = i + 1;
    }
    assert(all.take(i as int) =~= all);
    if !ledger_current {
        let ghost before = findings@;
        findings.push(
            AuditFinding {
                scope: AuditScope::Repository,
                severity: AuditSeverity::Info,
                message: "results.tsv is stale compared with canonical history".to_owned(),
                comment_id: None,
                author: None,
                created_at: None,
            },
        );
        proof {
            assert(findings@.last()@ == stale_finding());
            assert(validation::finding_views(findings@) =~= validation::finding_views(
                before,
            ).push(findings@.last()@));
        }
    }
    let invalid_count: usize = count_findings(&findings, AuditSeverity::Invalid);
    let suspicious_count: usize = count_findings(&findings, AuditSeverity::Suspicious);
    let info_count: usize = count_findings(&findings, AuditSeverity::Info);
    AuditOutput { repo, ledger_current, invalid_count, suspicious_count, info_count, findings }
}

/// The word for a yes or a no.
pub open spec fn yes_or_no(b: bool) -> Seq<char> {
    if b {
        "yes"@
    } else {
        "no"@
    }
}

impl AuditOutput {
    /// The output as it is shown.
    pub open spec fn shown(&self) -> Seq<char> {
        if self.invalid_count == 0 && self.suspicious_count == 0 && self.info_count == 0
            && self.ledger_current {
            "Audit clean for "@ + self.repo@ + "."@
        } else {
            "Audit for "@ + self.repo@ + ": "@ + text::decimal(self.invalid_count as nat)
                + " invalid, "@ + text::decimal(self.suspicious_count as nat) + " suspicious, "@
                + text::decimal(self.info_count as nat) + " info, results.tsv current: "@
                + yes_or_no(self.ledger_current)
        }
    }

    /// The output as it is shown.
    pub fn text(&self) -> (r: String)
        ensures
            r@ == self.shown(),
    {
        if self.invalid_count == 0 && self.suspicious_count == 0 && self.info_count == 0
            && self.ledger_current {
            let mut r = "Audit clean for ".to_owned();
            r.append(self.repo.as_str());
            r.append(".");
            return r;
        }
        let mut r = "Audit for ".to_owned();
        r.append(self.repo.as_str());
        r.append(": ");
        r.append(text::number(self.invalid_count as u64).as_str());
        r.append(" invalid, ");
        r.append(text::number(self.suspicious_count as u64).as_str());
        r.append(" suspicious, ");
        r.append(text::number(self.info_count as u64).as_str());
        r.append(" info, results.tsv current: ");
        if self.ledger_current {
            r.append("yes");
        } else {
            r.append("no");
        }
        r
    }
}

/// Every finding is counted once: an audit that counts none has none.
pub proof fn every_finding_is_counted(findings: Seq<FindingView>)
    ensures
        count_of(findings, AuditSeverity::Invalid) + count_of(findings, AuditSeverity::Suspicious)
            + count_of(findings, AuditSeverity::Info) == findings.len(),
    decreases findings.len(),
{
    if findings.len() > 0 {
        every_finding_is_counted(findings.drop_last());
    }
}

} // verus!
