//! Tells how a project stands.
use crate::commands::audit;
use crate::commands::duties;
use crate::config::ProtocolConfig;
use crate::ledger::Ledger;
use crate::metric::Metric;
use crate::state::{PullRequestState, RepositoryState, ThesisPhase, ThesisState};
use crate::text;
use crate::validation;
use crate::validation::AuditSeverity;
use vstd::prelude::*;
use vstd::string::*;

verus! {

/// How a project stands.
#[derive(Debug)]
pub struct StatusOutput {
    pub repo: String,
    pub auto_approve: bool,
    pub maintainer_github_login: Option<String>,
    pub queue_depth: usize,
    pub active_nodes: Vec<String>,
    pub current_best_accepted_metric: Option<Metric>,
    pub ledger_current: bool,
    pub invalid_count: usize,
    pub suspicious_count: usize,
    pub info_count: usize,
    pub maintainer_pending_count: usize,
    pub maintainer_rejected_count: usize,
    pub maintainer_items: Vec<String>,
    pub thesis_count: usize,
}

/// What the maintainer has to do with a candidate.
pub open spec fn candidate_items(pr: PullRequestState) -> Seq<Seq<char>> {
    let n = text::decimal(pr.pr.number as nat);
    if !duties::undecided(pr) {
        Seq::empty()
    } else if pr.maintainer_rejected {
        seq!["PR #"@ + n + " rejected"@]
    } else if !pr.maintainer_approved {
        seq!["PR #"@ + n + " awaiting /approve"@]
    } else {
        Seq::empty()
    }
}

/// What the maintainer has to do with candidates.
pub open spec fn candidates_items(prs: Seq<PullRequestState>) -> Seq<Seq<char>>
    decreases prs.len(),
{
    if prs.len() == 0 {
        Seq::empty()
    } else {
        candidates_items(prs.drop_last()) + candidate_items(prs.last())
    }
}

/// What the maintainer has to do with a thesis alone.
pub open spec fn own_items(t: ThesisState) -> Seq<Seq<char>> {
    let n = text::decimal(t.issue.number as nat);
    if t.maintainer_rejected {
        seq!["thesis #"@ + n + " rejected"@]
    } else if t.phase == ThesisPhase::Submitted {
        seq!["thesis #"@ + n + " awaiting /approve"@]
    } else {
        Seq::empty()
    }
}

/// What the maintainer has to do with a thesis and its candidates.
pub open spec fn thesis_items(t: ThesisState) -> Seq<Seq<char>> {
    if t.issue.state@ != "OPEN"@ {
        Seq::empty()
    } else {
        own_items(t) + candidates_items(t.pull_requests@)
    }
}

/// What the maintainer has to do with theses.
pub open spec fn items_of(theses: Seq<ThesisState>) -> Seq<Seq<char>>
    decreases theses.len(),
{
    if theses.len() == 0 {
        Seq::empty()
    } else {
        items_of(theses.drop_last()) + thesis_items(theses.last())
    }
}

/// What the maintainer has to do; nothing where theses are approved at once.
pub open spec fn maintainer_list(s: RepositoryState, auto_approve: bool) -> Seq<Seq<char>> {
    if auto_approve {
        Seq::empty()
    } else {
        items_of(s.theses@)
    }
}

fn put(items: &mut Vec<String>, item: String)
    ensures
        text::texts(final(items)@) == text::texts(old(items)@).push(item@),
{
    let ghost before = items@;
    items.push(item);
    proof {
        text::lemma_texts_push(before, items@.last());
    }
}

fn list_candidates(prs: &Vec<PullRequestState>, items: &mut Vec<String>)
    ensures
        text::texts(final(items)@) == text::texts(old(items)@) + candidates_items(prs@),
{
    let ghost start = text::texts(items@);
    let mut i: usize = 0;
    assert(prs@.take(0).len() == 0);
    assert(start + candidates_items(prs@.take(0)) =~= start);
    while i < prs.len()
        invariant
            i <= prs.len(),
            text::texts(items@) == start + candidates_items(prs@.take(i as int)),
        decreases prs.len() - i,
    {
        let pr = &prs[i];
        proof {
            assert(prs@.take(i + 1).drop_last() =~= prs@.take(i as int));
            assert(prs@.take(i + 1).last() == prs@[i as int]);
        }
        if text::same(pr.pr.state.as_str(), "OPEN") && pr.decision.is_none() {
            if pr.maintainer_rejected {
                put(items, text::say("PR #", pr.pr.number, " rejected"));
            } else if !pr.maintainer_approved {
                put(items, text::say("PR #", pr.pr.number, " awaiting /approve"));
            }
        }
        assert(text::texts(items@) =~= start + candidates_items(prs@.take(i + 1)));
        i = i + 1;
    }
    assert(prs@.take(i as int) =~= prs@);
}

/// What the maintainer has to do: which theses and candidates wait for a word, and which were
/// rejected.
pub fn maintainer_items(repo_state: &RepositoryState, auto_approve: bool) -> (r: Vec<String>)
    ensures
        text::texts(r@) == maintainer_list(*repo_state, auto_approve),
{
    let mut items: Vec<String> = Vec::new();
    assert(text::texts(items@) =~= Seq::<Seq<char>>::empty());
    if auto_approve {
        return items;
    }
    let theses = &repo_state.theses;
    let mut i: usize = 0;
    assert(theses@.take(0).len() == 0);
    while i < theses.len()
        invariant
            i <= theses.len(),
            text::texts(items@) == items_of(theses@.take(i as int)),
        decreases theses.len() - i,
    {
        let t = &theses[i];
        let ghost before = text::texts(items@);
        proof {
            assert(theses@.take(i + 1).drop_last() =~= theses@.take(i as int));
            assert(theses@.take(i + 1).last() == theses@[i as int]);
        }
        if text::same(t.issue.state.as_str(), "OPEN") {
            let submitted = match t.phase {
                ThesisPhase::Submitted => true,
                _ => false,
            };
            if t.maintainer_rejected {
                put(&mut items, text::say("thesis #", t.issue.number, " rejected"));
            } else if submitted {
                put(&mut items, text::say("thesis #", t.issue.number, " awaiting /approve"));
            }
            assert(text::texts(items@) =~= before + own_items(*t));
            list_candidates(&t.pull_requests, &mut items);
        }
        assert(text::texts(items@) =~= before + thesis_items(*t));
        i = i + 1;
    }
    assert(theses@.take(i as int) =~= theses@);
    items
}

/// How many of the items hold a word.
pub open spec fn count_with(items: Seq<Seq<char>>, word: Seq<char>) -> nat
    decreases items.len(),
{
    if items.len() == 0 {
        0
    } else {
        count_with(items.drop_last(), word) + (if text::holds(items.last(), word) {
            1nat
        } else {
            0nat
        })
    }
}

fn count_items(items: &Vec<String>, word: &str) -> (r: usize)
    ensures
        r == count_with(text::texts(items@), word@),
{
    let ghost all = text::texts(items@);
    let mut n: usize = 0;
    let mut i: usize = 0;
    assert(all.take(0).len() == 0);
    while i < items.len()
        invariant
            n <= i <= items.len(),
            all == text::texts(items@),
            n == count_with(all.take(i as int), word@),
        decreases items.len() - i,
    {
        proof {
            assert(all.take(i + 1).drop_last() =~= all.take(i as int));
            assert(all.take(i + 1).last() == items@[i as int]@);
        }
        if text::contains(items[i].as_str(), word) {
            n = n + 1;
        }
        i = i + 1;
    }
    assert(all.take(i as int) =~= all);
    n
}

/// How a project stands.
pub fn status(
    repo: String,
    config: &ProtocolConfig,
    repo_state: &RepositoryState,
    ledger: &Ledger,
) -> (r: StatusOutput)
    ensures
        r.repo == repo,
        r.auto_approve == config.auto_approve,
        r.maintainer_github_login == config.maintainer_github_login,
        r.queue_depth == repo_state.queue_depth,
        text::texts(r.active_nodes@) == text::texts(repo_state.active_nodes@),
        r.current_best_accepted_metric == repo_state.current_best_accepted_metric,
        r.ledger_current == ledger.current(*repo_state),
        ({
            let found = validation::finding_views(repo_state.audit_findings@);
            &&& r.invalid_count == audit::count_of(found, AuditSeverity::Invalid)
            &&& r.suspicious_count == audit::count_of(found, AuditSeverity::Suspicious)
            &&& r.info_count == audit::count_of(found, AuditSeverity::Info)
        }),
        text::texts(r.maintainer_items@) == maintainer_list(*repo_state, config.auto_approve),
        r.maintainer_pending_count == count_with(
            maintainer_list(*repo_state, config.auto_approve),
            "awaiting"@,
        ),
        r.maintainer_rejected_count == count_with(
            maintainer_list(*repo_state, config.auto_approve),
            "rejected"@,
        ),
        r.thesis_count == repo_state.theses@.len(),
{
    let items = maintainer_items(repo_state, config.auto_approve);
    let pending: usize = count_items(&items, "awaiting");
    let rejected: usize = count_items(&items, "rejected");
    let nodes = repo_state.active_nodes.clone();
    assert(text::texts(nodes@) =~= text::texts(repo_state.active_nodes@));
    let best = match &repo_state.current_best_accepted_metric {
        Some(m) => Some(m.clone()),
        None => None,
    };
    StatusOutput {
        repo,
        auto_approve: config.auto_approve,
        maintainer_github_login: text::copy(&config.maintainer_github_login),
        queue_depth: repo_state.queue_depth,
        active_nodes: nodes,
        current_best_accepted_metric: best,
        ledger_current: ledger.is_current(repo_state),
        invalid_count: audit::count_findings(&repo_state.audit_findings, AuditSeverity::Invalid),
        suspicious_count: audit::count_findings(
            &repo_state.audit_findings,
            AuditSeverity::Suspicious,
        ),
        info_count: audit::count_findings(&repo_state.audit_findings, AuditSeverity::Info),
        maintainer_pending_count: pending,
        maintainer_rejected_count: rejected,
        maintainer_items: items,
        thesis_count: repo_state.theses.len(),
    }
}

/// The nodes as they are shown.
pub open spec fn shown_nodes(nodes: Seq<Seq<char>>) -> Seq<char> {
    if nodes.len() == 0 {
        "none"@
    } else {
        text::joined(nodes, ", "@)
    }
}

/// The nodes as they are shown.
pub fn show_nodes(nodes: &Vec<String>) -> (r: String)
    ensures
        r@ == shown_nodes(text::texts(nodes@)),
{
    assert(text::texts(nodes@).len() == nodes@.len());
    if nodes.len() == 0 {
        "none".to_owned()
    } else {
        text::join(nodes, ", ")
    }
}

/// A metric that may be missing, as it is shown.
pub open spec fn shown_metric(m: Option<Metric>, missing: Seq<char>) -> Seq<char> {
    match m {
        Some(m) => m.text@,
        None => missing,
    }
}

/// A metric that may be missing, as it is shown.
pub fn show_metric(m: &Option<Metric>, missing: &str) -> (r: String)
    ensures
        r@ == shown_metric(*m, missing@),
{
    match m {
        Some(m) => m.text.clone(),
        None => missing.to_owned(),
    }
}

/// Items as they are listed, behind a text.
pub open spec fn with_items(start: Seq<char>, items: Seq<Seq<char>>) -> Seq<char>
    decreases items.len(),
{
    if items.len() == 0 {
        start
    } else {
        with_items(start, items.drop_last()) + "\n- "@ + items.last()
    }
}

impl StatusOutput {
    /// The first lines of the output.
    pub open spec fn summary(&self) -> Seq<char> {
        "Repo: "@ + self.repo@ + "\nTheses: "@ + text::decimal(self.thesis_count as nat)
            + "\nQueue depth: "@ + text::decimal(self.queue_depth as nat) + "\nActive nodes: "@
            + shown_nodes(text::texts(self.active_nodes@)) + "\nBest accepted metric: "@
            + shown_metric(self.current_best_accepted_metric, "n/a"@)
            + "\nresults.tsv current: "@ + audit::yes_or_no(self.ledger_current)
            + "\nAudit findings: "@ + text::decimal(self.invalid_count as nat) + " invalid, "@
            + text::decimal(self.suspicious_count as nat) + " suspicious, "@ + text::decimal(
            self.info_count as nat,
        ) + " info"@
    }

    /// The output as it is shown.
    pub open spec fn shown(&self) -> Seq<char> {
        if self.auto_approve {
            self.summary() + "\nMaintainer gate: auto-approve enabled"@
        } else {
            let maintainer = match self.maintainer_github_login {
                Some(m) => m@,
                None => "unconfigured"@,
            };
            let gate = self.summary() + "\nMaintainer gate: waiting on `"@ + maintainer + "` ("@
                + text::decimal(self.maintainer_pending_count as nat) + " awaiting, "@
                + text::decimal(self.maintainer_rejected_count as nat) + " rejected)"@;
            if self.maintainer_items@.len() == 0 {
                gate
            } else {
                with_items(
                    gate + "\nMaintainer review items:"@,
                    text::texts(self.maintainer_items@),
                )
            }
        }
    }

    fn summarize(&self) -> (r: String)
        ensures
            r@ == self.summary(),
    {
        let mut r = "Repo: ".to_owned();
        r.append(self.repo.as_str());
        r.append("\nTheses: ");
        r.append(text::number(self.thesis_count as u64).as_str());
        r.append("\nQueue depth: ");
        r.append(text::number(self.queue_depth as u64).as_str());
        r.append("\nActive nodes: ");
        r.append(show_nodes(&self.active_nodes).as_str());
        r.append("\nBest accepted metric: ");
        r.append(show_metric(&self.current_best_accepted_metric, "n/a").as_str());
        r.append("\nresults.tsv current: ");
        if self.ledger_current {
            r.append("yes");
        } else {
            r.append("no");
        }
        r.append("\nAudit findings: ");
        r.append(text::number(self.invalid_count as u64).as_str());
        r.append(" invalid, ");
        r.append(text::number(self.suspicious_count as u64).as_str());
        r.append(" suspicious, ");
        r.append(text::number(self.info_count as u64).as_str());
        r.append(" info");
        r
    }

    /// The output as it is shown.
    pub fn text(&self) -> (r: String)
        ensures
            r@ == self.shown(),
    {
        let mut r = self.summarize();
        if self.auto_approve {
            r.append("\nMaintainer gate: auto-approve enabled");
            return r;
        }
        r.append("\nMaintainer gate: waiting on `");
        match &self.maintainer_github_login {
            Some(m) => r.append(m.as_str()),
            None => r.append("unconfigured"),
        }
        r.append("` (");
        r.append(text::number(self.maintainer_pending_count as u64).as_str());
        r.append(" awaiting, ");
        r.append(text::number(self.maintainer_rejected_count as u64).as_str());
        r.append(" rejected)");
        if self.maintainer_items.len() == 0 {
            return r;
        }
        r.append("\nMaintainer review items:");
        let ghost start = r@;
        let ghost all = text::texts(self.maintainer_items@);
        let mut i: usize = 0;
        assert(all.take(0).len() == 0);
        while i < self.maintainer_items.len()
            invariant
                i <= self.maintainer_items.len(),
                all == text::texts(self.maintainer_items@),
                r@ == with_items(start, all.take(i as int)),
            decreases self.maintainer_items.len() - i,
        {
            proof {
                assert(all.take(i + 1).drop_last() =~= all.take(i as int));
                assert(all.take(i + 1).last() == self.maintainer_items@[i as int]@);
            }
            r.append("\n- ");
            r.append(self.maintainer_items[i].as_str());
            i = i + 1;
        }
        assert(all.take(i as int) =~= all);
        r
    }
}

} // verus!
