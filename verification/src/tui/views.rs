//! The texts of the dashboard.
use crate::commands::audit;
use crate::commands::claim;
use crate::commands::status;
use crate::state::{ActivityEvent, AttemptRecord, ThesisState};
use crate::text;
use crate::time::Timestamp;
use crate::tui::app::DashboardApp;
use crate::validation;
use crate::validation::{AuditFinding, AuditScope, AuditSeverity};
use vstd::prelude::*;
use vstd::string::*;

verus! {

/// How many findings, and how many events, are shown.
pub const SHOWN_ENTRIES: usize = 3;

/// The line on the whole project.
pub open spec fn shown_summary(repo: Seq<char>, max_queue: Option<usize>, app: DashboardApp) -> Seq<char> {
    let s = app.repo_state;
    let found = validation::finding_views(s.audit_findings@);
    "Repo: "@ + repo + " | Theses: "@ + text::decimal(s.theses@.len()) + " | Queue: "@
        + text::decimal(s.queue_depth as nat) + "/"@ + (match max_queue {
        Some(m) => text::decimal(m as nat),
        None => "∞"@,
    }) + " | Best: "@ + status::shown_metric(s.current_best_accepted_metric, "n/a"@)
        + " | Nodes: "@ + status::shown_nodes(text::texts(s.active_nodes@))
        + " | results.tsv current: "@ + audit::yes_or_no(app.ledger.current(s))
        + " | Findings: "@ + text::decimal(audit::count_of(found, AuditSeverity::Invalid))
        + " invalid / "@ + text::decimal(audit::count_of(found, AuditSeverity::Suspicious))
        + " suspicious"@
}

/// The line on the whole project.
pub fn summary_text(repo: &str, max_queue_depth: Option<usize>, app: &DashboardApp) -> (r: String)
    ensures
        r@ == shown_summary(repo@, max_queue_depth, *app),
{
    let s = &app.repo_state;
    let mut r = "Repo: ".to_owned();
    r.append(repo);
    r.append(" | Theses: ");
    r.append(text::number(s.theses.len() as u64).as_str());
    r.append(" | Queue: ");
    r.append(text::number(s.queue_depth as u64).as_str());
    r.append("/");
    match max_queue_depth {
        Some(m) => r.append(text::number(m as u64).as_str()),
        None => r.append("∞"),
    }
    r.append(" | Best: ");
    r.append(status::show_metric(&s.current_best_accepted_metric, "n/a").as_str());
    r.append(" | Nodes: ");
    r.append(status::show_nodes(&s.active_nodes).as_str());
    r.append(" | results.tsv current: ");
    if app.ledger.is_current(s) {
        r.append("yes");
    } else {
        r.append("no");
    }
    r.append(" | Findings: ");
    let invalid: usize = audit::count_findings(&s.audit_findings, AuditSeverity::Invalid);
    r.append(text::number(invalid as u64).as_str());
    r.append(" invalid / ");
    let suspicious: usize = audit::count_findings(&s.audit_findings, AuditSeverity::Suspicious);
    r.append(text::number(suspicious as u64).as_str());
    r.append(" suspicious");
    r
}

/// Who holds a thesis, as it is shown.
pub open spec fn shown_claims(t: ThesisState, missing: Seq<char>) -> Seq<char> {
    if t.active_claims@.len() == 0 {
        missing
    } else {
        text::joined(claim::nodes_of(t.active_claims@), ", "@)
    }
}

fn show_claims(t: &ThesisState, missing: &str) -> (r: String)
    ensures
        r@ == shown_claims(*t, missing@),
{
    if t.active_claims.len() == 0 {
        return missing.to_owned();
    }
    let ghost all = claim::nodes_of(t.active_claims@);
    let mut nodes: Vec<String> = Vec::new();
    let mut i: usize = 0;
    assert(text::texts(nodes@) =~= all.take(0));
    while i < t.active_claims.len()
        invariant
            i <= t.active_claims.len(),
            all == claim::nodes_of(t.active_claims@),
            text::texts(nodes@) == all.take(i as int),
        decreases t.active_claims.len() - i,
    {
        let ghost before = nodes@;
        nodes.push(t.active_claims[i].node.clone());
        proof {
            text::lemma_texts_push(before, nodes@.last());
            assert(all.take(i + 1) =~= all.take(i as int).push(all[i as int]));
        }
        i = i + 1;
    }
    assert(all.take(i as int) =~= all);
    text::join(&nodes, ", ")
}

/// The cells of the row of a thesis: number, title, phase, who holds it, best metric, attempts.
pub open spec fn shown_row(t: ThesisState) -> Seq<Seq<char>> {
    seq![
        "#"@ + text::decimal(t.issue.number as nat),
        t.issue.title@,
        t.phase.name(),
        shown_claims(t, "—"@),
        status::shown_metric(t.best_attempt_metric, "—"@),
        text::decimal(t.attempts@.len()),
    ]
}

/// The cells of the row of a thesis.
pub fn thesis_row(t: &ThesisState) -> (r: Vec<String>)
    ensures
        text::texts(r@) == shown_row(*t),
{
    let r = vec![
        text::numbered("#", t.issue.number),
        t.issue.title.clone(),
        t.phase.to_name(),
        show_claims(t, "—"),
        status::show_metric(&t.best_attempt_metric, "—"),
        text::number(t.attempts.len() as u64),
    ];
    assert(text::texts(r@) =~= shown_row(*t));
    r
}

/// The word for how severe a finding is.
pub open spec fn severity_word(s: AuditSeverity) -> Seq<char> {
    match s {
        AuditSeverity::Invalid => "invalid"@,
        AuditSeverity::Suspicious => "suspicious"@,
        AuditSeverity::Info => "info"@,
    }
}

fn severity_text(s: AuditSeverity) -> (r: String)
    ensures
        r@ == severity_word(s),
{
    match s {
        AuditSeverity::Invalid => "invalid".to_owned(),
        AuditSeverity::Suspicious => "suspicious".to_owned(),
        AuditSeverity::Info => "info".to_owned(),
    }
}

/// A finding as it is listed.
pub open spec fn shown_finding(f: AuditFinding) -> Seq<char> {
    "["@ + severity_word(f.severity) + "] "@ + (match f.scope {
        AuditScope::Issue { number } => "issue #"@ + text::decimal(number as nat),
        AuditScope::PullRequest { number } => "PR #"@ + text::decimal(number as nat),
        AuditScope::Repository => "repo"@,
    }) + ": "@ + f.message@
}

/// A finding as it is listed.
pub fn render_finding(f: &AuditFinding) -> (r: String)
    ensures
        r@ == shown_finding(*f),
{
    let scope = match f.scope {
        AuditScope::Issue { number } => text::numbered("issue #", number),
        AuditScope::PullRequest { number } => text::numbered("PR #", number),
        AuditScope::Repository => "repo".to_owned(),
    };
    let mut r = "[".to_owned();
    r.append(severity_text(f.severity).as_str());
    r.append("] ");
    r.append(scope.as_str());
    r.append(": ");
    r.append(f.message.as_str());
    r
}

/// Two digits of a number below a hundred.
pub open spec fn two_digits(n: nat) -> Seq<char> {
    seq![text::digit(n / 10), text::digit(n % 10)]
}

/// The time of day of a point in UTC. A leap second is the sixtieth of its minute.
pub open spec fn clock_time(t: Timestamp) -> Seq<char> {
    let second = (t.secs as int % 86_400) as nat;
    let shown = if t.nanos >= 1_000_000_000 {
        second % 60 + 1
    } else {
        second % 60
    };
    two_digits(second / 3600) + ":"@ + two_digits(second / 60 % 60) + ":"@ + two_digits(shown)
}

fn two(n: u32) -> (r: String)
    requires
        n < 100,
    ensures
        r@ == two_digits(n as nat),
{
    let mut r = String::new();
    r.push((48 + (n / 10) as u8) as char);
    r.push((48 + (n % 10) as u8) as char);
    assert(r@ =~= two_digits(n as nat));
    r
}

/// The time of day of a point in UTC.
pub fn format_clock(t: &Timestamp) -> (r: String)
    ensures
        r@ == clock_time(*t),
{
    let second: u32 = t.second_of_day();
    let shown: u32 = if t.nanos >= 1_000_000_000 {
        second % 60 + 1
    } else {
        second % 60
    };
    let mut r = two(second / 3600);
    r.append(":");
    r.append(two(second / 60 % 60).as_str());
    r.append(":");
    r.append(two(shown).as_str());
    r
}

/// An event as it is listed.
pub open spec fn shown_event(e: ActivityEvent) -> Seq<char> {
    clock_time(e.created_at) + " "@ + e.source@ + " "@ + e.summary@
}

/// The first of a list, as many as are shown.
pub open spec fn first<T>(list: Seq<T>) -> Seq<T> {
    if list.len() <= SHOWN_ENTRIES {
        list
    } else {
        list.take(SHOWN_ENTRIES as int)
    }
}

/// The lines on what happened: the first findings and the latest events.
pub open spec fn shown_activity(app: DashboardApp) -> Seq<Seq<char>> {
    first(app.repo_state.audit_findings@).map_values(|f: AuditFinding| shown_finding(f)) + first(
        app.repo_state.recent_events@,
    ).map_values(|e: ActivityEvent| shown_event(e))
}

/// The lines on what happened.
pub fn activity_lines(app: &DashboardApp) -> (r: Vec<String>)
    ensures
        text::texts(r@) == shown_activity(*app),
{
    let findings = &app.repo_state.audit_findings;
    let events = &app.repo_state.recent_events;
    let ghost a = first(findings@).map_values(|f: AuditFinding| shown_finding(f));
    let ghost b = first(events@).map_values(|e: ActivityEvent| shown_event(e));
    let mut r: Vec<String> = Vec::new();
    let mut i: usize = 0;
    assert(text::texts(r@) =~= a.take(0));
    while i < findings.len() && i < SHOWN_ENTRIES
        invariant
            i <= findings.len(),
            i <= SHOWN_ENTRIES,
            a == first(findings@).map_values(|f: AuditFinding| shown_finding(f)),
            text::texts(r@) == a.take(i as int),
        decreases findings.len() - i,
    {
        let ghost before = r@;
        r.push(render_finding(&findings[i]));
        proof {
            text::lemma_texts_push(before, r@.last());
            assert(a.take(i + 1) =~= a.take(i as int).push(a[i as int]));
        }
        i = i + 1;
    }
    assert(a.take(i as int) =~= a);
    let mut k: usize = 0;
    assert(text::texts(r@) =~= a + b.take(0));
    while k < events.len() && k < SHOWN_ENTRIES
        invariant
            k <= events.len(),
            k <= SHOWN_ENTRIES,
            b == first(events@).map_values(|e: ActivityEvent| shown_event(e)),
            text::texts(r@) == a + b.take(k as int),
        decreases events.len() - k,
    {
        let e = &events[k];
        let mut line = format_clock(&e.created_at);
        line.append(" ");
        line.append(e.source.as_str());
        line.append(" ");
        line.append(e.summary.as_str());
        let ghost before = r@;
        r.push(line);
        proof {
            text::lemma_texts_push(before, r@.last());
            assert(b[k as int] == shown_event(events@[k as int]));
            assert(text::texts(r@) =~= a + b.take(k + 1));
        }
        k = k + 1;
    }
    assert(b.take(k as int) =~= b);
    r
}

/// A finding in short.
pub open spec fn short(f: AuditFinding) -> Seq<char> {
    severity_word(f.severity) + ": "@ + f.message@
}

/// A finding in short.
pub fn short_finding(f: &AuditFinding) -> (r: String)
    ensures
        r@ == short(*f),
{
    let mut r = severity_text(f.severity);
    r.append(": ");
    r.append(f.message.as_str());
    r
}

/// The findings on a thesis, as they are shown.
pub open spec fn shown_findings(findings: Seq<AuditFinding>) -> Seq<char> {
    if findings.len() == 0 {
        "none"@
    } else {
        text::joined(first(findings).map_values(|f: AuditFinding| short(f)), " | "@)
    }
}

fn show_findings(findings: &Vec<AuditFinding>) -> (r: String)
    ensures
        r@ == shown_findings(findings@),
{
    if findings.len() == 0 {
        return "none".to_owned();
    }
    let ghost a = first(findings@).map_values(|f: AuditFinding| short(f));
    let mut parts: Vec<String> = Vec::new();
    let mut i: usize = 0;
    assert(text::texts(parts@) =~= a.take(0));
    while i < findings.len() && i < SHOWN_ENTRIES
        invariant
            i <= findings.len(),
            i <= SHOWN_ENTRIES,
            a == first(findings@).map_values(|f: AuditFinding| short(f)),
            text::texts(parts@) == a.take(i as int),
        decreases findings.len() - i,
    {
        let ghost before = parts@;
        parts.push(short_finding(&findings[i]));
        proof {
            text::lemma_texts_push(before, parts@.last());
            assert(a.take(i + 1) =~= a.take(i as int).push(a[i as int]));
        }
        i = i + 1;
    }
    assert(a.take(i as int) =~= a);
    text::join(&parts, " | ")
}

/// An attempt as it is shown.
pub open spec fn shown_attempt(a: AttemptRecord) -> Seq<char> {
    a.branch@ + " "@ + a.metric.text@ + " "@ + a.observation.word()
}

/// The attempts at a thesis, as they are shown.
pub open spec fn shown_attempts(attempts: Seq<AttemptRecord>) -> Seq<char> {
    if attempts.len() == 0 {
        "none"@
    } else {
        text::joined(attempts.map_values(|a: AttemptRecord| shown_attempt(a)), "\n"@)
    }
}

fn show_attempts(attempts: &Vec<AttemptRecord>) -> (r: String)
    ensures
        r@ == shown_attempts(attempts@),
{
    if attempts.len() == 0 {
        return "none".to_owned();
    }
    let ghost all = attempts@.map_values(|a: AttemptRecord| shown_attempt(a));
    let mut lines: Vec<String> = Vec::new();
    let mut i: usize = 0;
    assert(text::texts(lines@) =~= all.take(0));
    while i < attempts.len()
        invariant
            i <= attempts.len(),
            all == attempts@.map_values(|a: AttemptRecord| shown_attempt(a)),
            text::texts(lines@) == all.take(i as int),
        decreases attempts.len() - i,
    {
        let a = &attempts[i];
        let mut line = a.branch.clone();
        line.append(" ");
        line.append(a.metric.text.as_str());
        line.append(" ");
        line.append(a.observation.text().as_str());
        let ghost before = lines@;
        lines.push(line);
        proof {
            text::lemma_texts_push(before, lines@.last());
            assert(all[i as int] == shown_attempt(attempts@[i as int]));
            assert(all.take(i + 1) =~= all.take(i as int).push(all[i as int]));
        }
        i = i + 1;
    }
    assert(all.take(i as int) =~= all);
    text::join(&lines, "\n")
}

/// The details of a thesis.
pub open spec fn shown_detail(t: ThesisState) -> Seq<char> {
    "Thesis #"@ + text::decimal(t.issue.number as nat) + "\n"@ + t.issue.title@ + "\n\nState: "@
        + t.phase.name() + "\nClaims: "@ + shown_claims(t, "none"@) + "\nFindings: "@
        + shown_findings(t.findings@) + "\nAttempts:\n"@ + shown_attempts(t.attempts@)
}

/// The details of the thesis that is selected.
pub fn detail_text(app: &DashboardApp) -> (r: String)
    ensures
        r@ == (match app.selected {
            Some(i) if i < app.repo_state.theses@.len() => shown_detail(
                app.repo_state.theses@[i as int],
            ),
            _ => "No thesis selected."@,
        }),
{
    match app.selected_thesis() {
        Some(t) => {
            let mut r = text::say("Thesis #", t.issue.number, "\n");
            r.append(t.issue.title.as_str());
            r.append("\n\nState: ");
            r.append(t.phase.to_name().as_str());
            r.append("\nClaims: ");
            r.append(show_claims(t, "none").as_str());
            r.append("\nFindings: ");
            r.append(show_findings(&t.findings).as_str());
            r.append("\nAttempts:\n");
            r.append(show_attempts(&t.attempts).as_str());
            r
        },
        None => "No thesis selected.".to_owned(),
    }
}

} // verus!
