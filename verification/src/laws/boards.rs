//! What holds of the dashboard.
use crate::commands::claim;
use crate::ledger::Ledger;
use crate::state::{RepositoryState, ThesisPhase, ThesisState};
use crate::text;
use crate::time::Timestamp;
use crate::tui::app::{DashboardApp, DashboardKey, KeyEffect};
use crate::tui::views;
use crate::validation::{AuditFinding, AuditScope, AuditSeverity};
use vstd::prelude::*;

verus! {

/// A new dashboard shows the first thesis, where there is one, and no details.
pub proof fn how_a_dashboard_starts(s: RepositoryState, l: Ledger, r: DashboardApp)
    requires
        call_ensures(DashboardApp::new, (s, l), r),
    ensures
        r.repo_state == s,
        r.ledger == l,
        s.theses@.len() > 0 ==> r.selected == Some(0usize),
        s.theses@.len() == 0 ==> r.selected is None,
        !r.show_details,
{
}

/// Down goes to the next thesis, from the last to the first; nothing else is changed.
pub proof fn down_goes_to_the_next_thesis(a: &mut DashboardApp, i: usize)
    requires
        call_ensures(DashboardApp::next, (a,), ()),
    ensures
        final(a).repo_state == old(a).repo_state,
        final(a).ledger == old(a).ledger,
        final(a).show_details == old(a).show_details,
        (old(a).selected == Some(i) && i + 1 < old(a).repo_state.theses@.len())
            ==> final(a).selected is Some && final(a).selected->Some_0 == i + 1,
        (old(a).selected == Some(i) && i + 1 == old(a).repo_state.theses@.len())
            ==> final(a).selected == Some(0usize),
        (old(a).selected is None && old(a).repo_state.theses@.len() > 0) ==> final(a).selected
            == Some(0usize),
        old(a).repo_state.theses@.len() == 0 ==> final(a).selected is None,
{
    assert(old(a).repo_state.theses.len() == old(a).repo_state.theses@.len());
}

/// Up goes to the thesis before, from the first to the last; nothing else is changed.
pub proof fn up_goes_to_the_thesis_before(a: &mut DashboardApp, i: usize)
    requires
        call_ensures(DashboardApp::previous, (a,), ()),
    ensures
        final(a).repo_state == old(a).repo_state,
        final(a).ledger == old(a).ledger,
        final(a).show_details == old(a).show_details,
        (old(a).selected == Some(i) && 0 < i < old(a).repo_state.theses@.len())
            ==> final(a).selected is Some && final(a).selected->Some_0 == i - 1,
        (old(a).selected == Some(0usize) && old(a).repo_state.theses@.len() > 0)
            ==> final(a).selected is Some && final(a).selected->Some_0
            == old(a).repo_state.theses@.len() - 1,
        old(a).repo_state.theses@.len() == 0 ==> final(a).selected is None,
{
    assert(old(a).repo_state.theses.len() == old(a).repo_state.theses@.len());
}

/// Toggling twice changes nothing, and toggling once the details alone.
pub proof fn toggling_twice_changes_nothing(a: &mut DashboardApp, b: &mut DashboardApp)
    requires
        call_ensures(DashboardApp::toggle_detail, (a,), ()),
        *old(b) == *final(a),
        call_ensures(DashboardApp::toggle_detail, (b,), ()),
    ensures
        final(a).show_details != old(a).show_details,
        final(a).selected == old(a).selected,
        final(a).repo_state == old(a).repo_state,
        *final(b) == *old(a),
{
}

/// A refreshed dashboard shows the new state and keeps the selection, where there is one and there
/// still are theses.
pub proof fn a_refresh_keeps_the_selection(a: &mut DashboardApp, s: RepositoryState, l: Ledger)
    requires
        call_ensures(DashboardApp::refresh, (a, s, l), ()),
    ensures
        final(a).repo_state == s,
        final(a).ledger == l,
        final(a).show_details == old(a).show_details,
        s.theses@.len() == 0 ==> final(a).selected is None,
        s.theses@.len() > 0 && old(a).selected is Some ==> final(a).selected == old(a).selected,
        s.theses@.len() > 0 && old(a).selected is None ==> final(a).selected == Some(0usize),
{
}

/// What is selected is the thesis at the place.
pub proof fn what_is_selected(a: &DashboardApp, r: Option<&ThesisState>)
    requires
        call_ensures(DashboardApp::selected_thesis, (a,), r),
    ensures
        r is Some <==> a.selected is Some && a.selected->Some_0 < a.repo_state.theses@.len(),
        r matches Some(t) ==> *t == a.repo_state.theses@[a.selected->Some_0 as int],
{
}

/// Each key does its own: two ask for something, two move the selection, one shows details.
pub proof fn what_a_key_does(
    a: &mut DashboardApp,
    key: DashboardKey,
    effect: KeyEffect,
    down: &mut DashboardApp,
    up: &mut DashboardApp,
    toggled: &mut DashboardApp,
)
    requires
        call_ensures(DashboardApp::press, (a, key), effect),
        *old(down) == *old(a),
        *old(up) == *old(a),
        *old(toggled) == *old(a),
        call_ensures(DashboardApp::next, (down,), ()),
        call_ensures(DashboardApp::previous, (up,), ()),
        call_ensures(DashboardApp::toggle_detail, (toggled,), ()),
    ensures
        effect == KeyEffect::Quit <==> key == DashboardKey::Quit,
        effect == KeyEffect::Refresh <==> key == DashboardKey::Refresh,
        key == DashboardKey::Down ==> *final(a) == *final(down),
        key == DashboardKey::Up ==> *final(a) == *final(up),
        key == DashboardKey::Enter ==> *final(a) == *final(toggled),
        (key == DashboardKey::Quit || key == DashboardKey::Refresh || key == DashboardKey::Other)
            ==> *final(a) == *old(a),
{
}

/// The row of a thesis shows its number, its title, its phase, who holds it, its best metric and how
/// many attempts there are.
pub proof fn what_a_row_shows(t: ThesisState, phase: String, r: Vec<String>)
    requires
        call_ensures(views::thesis_row, (&t,), r),
        call_ensures(ThesisPhase::to_name, (&t.phase,), phase),
    ensures
        r@.len() == 6,
        r@[0]@ == "#"@ + text::decimal(t.issue.number as nat),
        r@[1]@ == t.issue.title@,
        r@[2]@ == phase@,
        t.active_claims@.len() == 0 ==> r@[3]@ == "\u{2014}"@,
        t.active_claims@.len() == 1 ==> r@[3]@ == t.active_claims@[0].node@,
        t.best_attempt_metric matches Some(m) ==> r@[4]@ == m.text@,
        t.best_attempt_metric is None ==> r@[4]@ == "\u{2014}"@,
        r@[5]@ == text::decimal(t.attempts@.len()),
{
    let all = text::texts(r@);
    assert(all.len() == r@.len());
    assert(all[0] == r@[0]@ && all[1] == r@[1]@ && all[2] == r@[2]@ && all[3] == r@[3]@ && all[4]
        == r@[4]@ && all[5] == r@[5]@);
    if t.active_claims@.len() == 1 {
        let nodes = claim::nodes_of(t.active_claims@);
        assert(nodes =~= seq![t.active_claims@[0].node@]);
    }
}

/// The digit's value.
pub open spec fn value(c: char) -> int {
    c as u32 - '0' as u32
}

/// The clock shows hours, minutes and seconds of the day, by two digits each.
pub proof fn what_the_clock_shows(t: Timestamp, r: String)
    requires
        call_ensures(views::format_clock, (&t,), r),
        t.nanos < 1_000_000_000,
    ensures
        r@.len() == 8,
        r@[2] == ':' && r@[5] == ':',
        (value(r@[0]) * 10 + value(r@[1])) * 3_600 + (value(r@[3]) * 10 + value(r@[4])) * 60 + (
        value(r@[6]) * 10 + value(r@[7])) == t.secs as int % 86_400,
        0 <= value(r@[3]) < 6,
        0 <= value(r@[6]) < 6,
        0 <= value(r@[0]) <= 2,
        0 <= value(r@[1]) < 10 && 0 <= value(r@[4]) < 10 && 0 <= value(r@[7]) < 10,
{
    reveal_strlit(":");
    let second = (t.secs as int % 86_400) as nat;
    let h = second / 3600;
    let m = second / 60 % 60;
    let s = second % 60;
    assert(h < 24);
    assert(second == h * 3600 + m * 60 + s);
    assert(r@ =~= seq![
        text::digit(h / 10),
        text::digit(h % 10),
        ':',
        text::digit(m / 10),
        text::digit(m % 10),
        ':',
        text::digit(s / 10),
        text::digit(s % 10),
    ]);
}

/// The first three findings are shown, and behind them the first three events.
pub proof fn what_activity_is_shown(
    a: DashboardApp,
    r: Vec<String>,
    k: int,
    finding: String,
)
    requires
        call_ensures(views::activity_lines, (&a,), r),
        0 <= k < 3,
        k < a.repo_state.audit_findings@.len() ==> call_ensures(
            views::render_finding,
            (&a.repo_state.audit_findings@[k],),
            finding,
        ),
    ensures
        r@.len() <= 6,
        ({
            let f = a.repo_state.audit_findings@.len();
            let e = a.repo_state.recent_events@.len();
            let shown: int = if f <= 3 {
                f as int
            } else {
                3
            };
            &&& r@.len() == shown + (if e <= 3 {
                e as int
            } else {
                3
            })
            &&& k < f ==> r@[k]@ == finding@
            &&& k < e ==> exists|start: Seq<char>|
                r@[shown + k]@ == start + " "@ + a.repo_state.recent_events@[k].summary@
        }),
{
    let f = a.repo_state.audit_findings@;
    let e = a.repo_state.recent_events@;
    let shown: int = if f.len() <= 3 {
        f.len() as int
    } else {
        3
    };
    let all = text::texts(r@);
    assert(all.len() == r@.len());
    if k < f.len() {
        assert(all[k] == r@[k]@);
        assert(views::first(f)[k] == f[k]);
    }
    if k < e.len() {
        let x = e[k];
        assert(all[shown + k] == r@[shown + k]@);
        assert(views::first(e)[k] == x);
        let start = views::clock_time(x.created_at) + " "@ + x.source@;
        assert(r@[shown + k]@ =~= start + " "@ + x.summary@);
    }
}

/// The word for a severity in brackets, what a finding is about, a colon and what was found.
pub open spec fn finding_line(word: Seq<char>, about: Seq<char>, message: Seq<char>) -> Seq<char> {
    "["@ + word + "] "@ + about + ": "@ + message
}

/// A finding is shown with its severity, what it is about, and what was found.
pub proof fn how_a_finding_is_shown(f: AuditFinding, r: String)
    requires
        call_ensures(views::render_finding, (&f,), r),
    ensures
        f.severity == AuditSeverity::Invalid ==> exists|about: Seq<char>|
            r@ == #[trigger] finding_line("invalid"@, about, f.message@),
        f.severity == AuditSeverity::Suspicious ==> exists|about: Seq<char>|
            r@ == #[trigger] finding_line("suspicious"@, about, f.message@),
        f.severity == AuditSeverity::Info ==> exists|about: Seq<char>|
            r@ == #[trigger] finding_line("info"@, about, f.message@),
        f.scope matches AuditScope::Issue { number } ==> exists|a: Seq<char>, b: Seq<char>|
            r@ == a + "issue #"@ + text::decimal(number as nat) + b,
        f.scope matches AuditScope::PullRequest { number } ==> exists|a: Seq<char>, b: Seq<char>|
            r@ == a + "PR #"@ + text::decimal(number as nat) + b,
{
    let start = "["@ + views::severity_word(f.severity) + "] "@;
    let end = ": "@ + f.message@;
    match f.scope {
        AuditScope::Issue { number } => {
            let about = "issue #"@ + text::decimal(number as nat);
            assert(r@ =~= finding_line(views::severity_word(f.severity), about, f.message@));
            assert(r@ =~= start + "issue #"@ + text::decimal(number as nat) + end);
        },
        AuditScope::PullRequest { number } => {
            let about = "PR #"@ + text::decimal(number as nat);
            assert(r@ =~= finding_line(views::severity_word(f.severity), about, f.message@));
            assert(r@ =~= start + "PR #"@ + text::decimal(number as nat) + end);
        },
        AuditScope::Repository => {
            let about = "repo"@;
            assert(r@ =~= finding_line(views::severity_word(f.severity), about, f.message@));
        },
    }
}

} // verus!
