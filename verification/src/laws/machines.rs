//! What holds of machines, of what is committed on them, and of what is shown.
use crate::config::MetricDirection;
use crate::editable_surface;
use crate::github_debug;
use crate::github_debug::DebugState;
use crate::hardware;
use crate::hardware::{GpuGroup, GpuInfo, GpuVendor, GroupView, ListedGpu};
use crate::laws::theses::good_as;
use crate::metric;
use crate::metric::Metric;
use crate::state;
use crate::state::{AttemptRecord, RepositoryState, ThesisPhase, ThesisState};
use crate::text;
use crate::worker;
use crate::worker::{ThesisWorker, WorkerOutcome};
use vstd::prelude::*;

verus! {

/// The line lists a processor: its name, a comma and the number of its memory.
pub open spec fn lists(line: Seq<char>, name: Seq<char>, memory: Seq<char>) -> bool {
    &&& name.len() > 0
    &&& metric::number_literal(memory)
    &&& exists|a: Seq<char>, b: Seq<char>| #[trigger]
        text::cut(line, ","@) == Some((a, b)) && text::trimmed(a) == name && text::trimmed(b)
            == memory
}

proof fn lemma_lists(line: Seq<char>, name: Seq<char>, memory: Seq<char>)
    ensures
        lists(line, name, memory) <==> hardware::listed_in(line) == Some((name, memory)),
{
    if hardware::listed_in(line) == Some((name, memory)) {
        let (a, b) = text::cut(line, ","@)->Some_0;
        assert(text::cut(line, ","@) == Some((a, b)));
    }
}

proof fn lemma_listed(lines: Seq<Seq<char>>, g: (Seq<char>, Seq<char>))
    ensures
        hardware::listed(lines).len() <= lines.len(),
        hardware::listed(lines).contains(g) <==> exists|i: int|
            0 <= i < lines.len() && lists(#[trigger] lines[i], g.0, g.1),
    decreases lines.len(),
{
    if lines.len() > 0 {
        let rest = lines.drop_last();
        let some = hardware::listed(rest);
        let all = hardware::listed(lines);
        lemma_listed(rest, g);
        lemma_lists(lines.last(), g.0, g.1);
        assert(lines[lines.len() - 1] == lines.last());
        if all.contains(g) {
            let k = choose|k: int| 0 <= k < all.len() && all[k] == g;
            if k < some.len() {
                assert(some[k] == g);
                let i = choose|i: int| 0 <= i < rest.len() && lists(#[trigger] rest[i], g.0, g.1);
                assert(lines[i] == rest[i]);
            }
        }
        if exists|i: int| 0 <= i < lines.len() && lists(#[trigger] lines[i], g.0, g.1) {
            let i = choose|i: int| 0 <= i < lines.len() && lists(#[trigger] lines[i], g.0, g.1);
            if i < rest.len() {
                assert(rest[i] == lines[i]);
                let k = choose|k: int| 0 <= k < some.len() && some[k] == g;
                assert(all[k] == g);
            } else {
                assert(all[all.len() - 1] == g);
            }
        }
    }
}

/// A processor is found exactly where a line lists it.
pub proof fn which_processors_are_found(
    output: &str,
    lines: Vec<String>,
    name: Seq<char>,
    memory: Seq<char>,
    r: Vec<ListedGpu>,
)
    requires
        call_ensures(hardware::parse_nvidia_smi, (output,), r),
        call_ensures(text::lines, (output,), lines),
    ensures
        r@.len() <= lines@.len(),
        (exists|k: int|
            0 <= k < r@.len() && (#[trigger] r@[k]).name@ == name && r@[k].memory_mb@ == memory)
            <==> (exists|i: int| 0 <= i < lines@.len() && lists((#[trigger] lines@[i])@, name, memory)),
{
    let all = text::texts(lines@);
    let found = hardware::listed_views(r@);
    let g = (name, memory);
    lemma_listed(all, g);
    assert(all.len() == lines@.len());
    assert(found.len() == r@.len());
    if exists|k: int|
        0 <= k < r@.len() && (#[trigger] r@[k]).name@ == name && r@[k].memory_mb@ == memory {
        let k = choose|k: int|
            0 <= k < r@.len() && (#[trigger] r@[k]).name@ == name && r@[k].memory_mb@ == memory;
        assert(found[k] == g);
        let i = choose|i: int| 0 <= i < all.len() && lists(#[trigger] all[i], name, memory);
        assert(all[i] == lines@[i]@);
    }
    if exists|i: int| 0 <= i < lines@.len() && lists((#[trigger] lines@[i])@, name, memory) {
        let i = choose|i: int| 0 <= i < lines@.len() && lists((#[trigger] lines@[i])@, name, memory);
        assert(all[i] == lines@[i]@);
        let k = choose|k: int| 0 <= k < found.len() && found[k] == g;
        assert(r@[k].name@ == name && r@[k].memory_mb@ == memory);
    }
}

/// A processor's maker is told by what the system says: Apple's by the maker or the name, the
/// others' by the maker alone.
pub proof fn who_made_a_processor(
    model: String,
    vendor: String,
    m: &str,
    v: &str,
    apple: &str,
    nvidia: &str,
    amd: &str,
    ati: &str,
    in_name: bool,
    in_vendor: bool,
    is_nvidia: bool,
    is_amd: bool,
    is_ati: bool,
    r: GpuInfo,
    s: GpuInfo,
)
    requires
        call_ensures(hardware::display_gpu, (&Some(model), &Some(vendor)), r),
        call_ensures(hardware::display_gpu, (&None, &None), s),
        m@ == model@,
        v@ == vendor@,
        apple@ == "Apple"@,
        nvidia@ == "NVIDIA"@,
        amd@ == "AMD"@,
        ati@ == "ATI"@,
        call_ensures(text::contains, (m, apple), in_name),
        call_ensures(text::contains, (v, apple), in_vendor),
        call_ensures(text::contains, (v, nvidia), is_nvidia),
        call_ensures(text::contains, (v, amd), is_amd),
        call_ensures(text::contains, (v, ati), is_ati),
    ensures
        r.name@ == model@,
        r.memory_gb is None,
        r.vendor == GpuVendor::AppleSilicon <==> in_name || in_vendor,
        r.vendor == GpuVendor::Nvidia <==> is_nvidia && !in_name && !in_vendor,
        r.vendor == GpuVendor::Amd <==> (is_amd || is_ati) && !is_nvidia && !in_name && !in_vendor,
        s.name@ == "Unknown GPU"@,
{
}

/// The processors of the name.
pub open spec fn named(name: Seq<char>) -> spec_fn(GpuInfo) -> bool {
    |g: GpuInfo| g.name@ == name
}

proof fn lemma_group_at(groups: Seq<GroupView>, name: Seq<char>, i: int)
    requires
        0 <= i <= groups.len(),
    ensures
        hardware::group_at(groups, name, i) matches Some(k) ==> i <= k < groups.len()
            && groups[k].name == name,
        hardware::group_at(groups, name, i) is None ==> forall|j: int|
            i <= j < groups.len() ==> (#[trigger] groups[j]).name != name,
    decreases groups.len() - i,
{
    if i < groups.len() && groups[i].name != name {
        lemma_group_at(groups, name, i + 1);
    }
}

proof fn lemma_grouped(gpus: Seq<GpuInfo>)
    ensures
        forall|i: int, j: int|
            0 <= i < j < hardware::grouped(gpus).len() ==> (#[trigger] hardware::grouped(
                gpus,
            )[i]).name != (#[trigger] hardware::grouped(gpus)[j]).name,
        forall|i: int|
            0 <= i < hardware::grouped(gpus).len() ==> (#[trigger] hardware::grouped(gpus)[i]).count
                == gpus.filter(named(hardware::grouped(gpus)[i].name)).len(),
        forall|n: Seq<char>|
            (#[trigger] gpus.filter(named(n))).len() > 0 ==> exists|i: int|
                0 <= i < hardware::grouped(gpus).len() && (#[trigger] hardware::grouped(
                    gpus,
                )[i]).name == n,
    decreases gpus.len(),
{
    reveal(Seq::filter);
    if gpus.len() > 0 {
        let rest = gpus.drop_last();
        let g = gpus.last();
        lemma_grouped(rest);
        let before = hardware::grouped(rest);
        let all = hardware::grouped(gpus);
        lemma_group_at(before, g.name@, 0);
        assert forall|n: Seq<char>| (#[trigger] gpus.filter(named(n))).len() == rest.filter(
            named(n),
        ).len() + (if g.name@ == n {
            1int
        } else {
            0int
        }) by {}
        match hardware::group_at(before, g.name@, 0) {
            Some(k) => {
                assert forall|i: int| 0 <= i < all.len() implies (#[trigger] all[i]).count
                    == gpus.filter(named(all[i].name)).len() && all[i].name == before[i].name by {
                    assert(before[i].count == rest.filter(named(before[i].name)).len());
                    if i != k {
                        assert(all[i] == before[i]);
                        if i < k {
                            assert(before[i].name != before[k].name);
                        } else {
                            assert(before[k].name != before[i].name);
                        }
                    }
                }
            },
            None => {
                assert forall|i: int| 0 <= i < all.len() implies (#[trigger] all[i]).count
                    == gpus.filter(named(all[i].name)).len() by {
                    if i < before.len() {
                        assert(all[i] == before[i]);
                        assert(before[i].count == rest.filter(named(before[i].name)).len());
                    } else {
                        if rest.filter(named(g.name@)).len() > 0 {
                            let j = choose|j: int|
                                0 <= j < before.len() && (#[trigger] before[j]).name == g.name@;
                            assert(before[j].name != g.name@);
                        }
                    }
                }
                assert forall|i: int, j: int| 0 <= i < j < all.len() implies (
                #[trigger] all[i]).name != (#[trigger] all[j]).name by {
                    assert(all[i] == before[i]);
                    if j < before.len() {
                        assert(all[j] == before[j]);
                    }
                }
            },
        }
        assert forall|n: Seq<char>|
            (#[trigger] gpus.filter(named(n))).len() > 0 implies exists|i: int|
            0 <= i < all.len() && (#[trigger] all[i]).name == n by {
            if g.name@ == n {
                match hardware::group_at(before, g.name@, 0) {
                    Some(k) => {
                        assert(all[k].name == n);
                    },
                    None => {
                        assert(all[before.len() as int].name == n);
                    },
                }
            } else {
                assert(rest.filter(named(n)).len() > 0);
                let i = choose|i: int|
                    0 <= i < before.len() && (#[trigger] before[i]).name == n;
                assert(all[i].name == n);
            }
        }
    }
}

/// Processors are grouped by their name: each name has one group, which counts the processors of
/// that name.
pub proof fn processors_are_grouped_by_name(gpus: Vec<GpuInfo>, r: Vec<GpuGroup>)
    requires
        call_ensures(hardware::group_gpus, (&gpus,), r),
    ensures
        forall|i: int, j: int|
            0 <= i < j < r@.len() ==> (#[trigger] r@[i]).name@ != (#[trigger] r@[j]).name@,
        forall|i: int|
            0 <= i < r@.len() ==> (#[trigger] r@[i]).count == gpus@.filter(
                named(r@[i].name@),
            ).len(),
        forall|k: int|
            0 <= k < gpus@.len() ==> exists|i: int|
                0 <= i < r@.len() && (#[trigger] r@[i]).name@ == (#[trigger] gpus@[k]).name@,
{
    lemma_grouped(gpus@);
    let all = hardware::grouped(gpus@);
    let v = hardware::group_views(r@);
    assert(v.len() == r@.len());
    assert forall|i: int| 0 <= i < r@.len() implies (#[trigger] r@[i])@ == all[i] by {
        assert(v[i] == r@[i]@);
    }
    assert forall|i: int, j: int| 0 <= i < j < r@.len() implies (#[trigger] r@[i]).name@ != (
    #[trigger] r@[j]).name@ by {
        assert(r@[i]@ == all[i] && r@[j]@ == all[j]);
    }
    assert forall|i: int| 0 <= i < r@.len() implies (#[trigger] r@[i]).count == gpus@.filter(
        named(r@[i].name@),
    ).len() by {
        assert(r@[i]@ == all[i]);
    }
    assert forall|k: int| 0 <= k < gpus@.len() implies exists|i: int|
        0 <= i < r@.len() && (#[trigger] r@[i]).name@ == (#[trigger] gpus@[k]).name@ by {
        let n = gpus@[k].name@;
        gpus@.lemma_filter_contains(named(n), k);
        assert(gpus@.filter(named(n)).contains(gpus@[k]));
        assert(gpus@.filter(named(n)).len() > 0);
        let i = choose|i: int| 0 <= i < all.len() && (#[trigger] all[i]).name == n;
        assert(r@[i]@ == all[i]);
    }
}

proof fn lemma_thesis_at(theses: Seq<ThesisState>, number: u64, i: int)
    requires
        0 <= i <= theses.len(),
    ensures
        RepositoryState::thesis_at(theses, number, i) matches Some(k) ==> i <= k < theses.len()
            && theses[k].issue.number == number,
        RepositoryState::thesis_at(theses, number, i) is None ==> forall|j: int|
            i <= j < theses.len() ==> (#[trigger] theses[j]).issue.number != number,
    decreases theses.len() - i,
{
    if i < theses.len() && theses[i].issue.number != number {
        lemma_thesis_at(theses, number, i + 1);
    }
}

/// A thesis is found by its number, and nothing only where none has it.
pub proof fn a_thesis_is_found_by_its_number(
    s: &RepositoryState,
    number: u64,
    r: Option<&ThesisState>,
)
    requires
        call_ensures(RepositoryState::get_thesis, (s, number), r),
    ensures
        r matches Some(t) ==> t.issue.number == number && s.theses@.contains(*t),
        r is None ==> forall|j: int|
            0 <= j < s.theses@.len() ==> (#[trigger] s.theses@[j]).issue.number != number,
{
    lemma_thesis_at(s.theses@, number, 0);
    if let Some(k) = RepositoryState::thesis_at(s.theses@, number, 0) {
        assert(s.theses@[k] == *r->Some_0);
    }
}

proof fn lemma_queue(theses: Seq<ThesisState>, auto_approve: bool)
    ensures
        state::queue_length(theses, auto_approve) == theses.filter(
            |t: ThesisState|
                t.issue.state@ == "OPEN"@ && (t.phase == ThesisPhase::Approved || (!auto_approve
                    && t.phase == ThesisPhase::Submitted && !t.maintainer_rejected)),
        ).len(),
    decreases theses.len(),
{
    reveal(Seq::filter);
    if theses.len() > 0 {
        lemma_queue(theses.drop_last(), auto_approve);
    }
}

/// The queue holds the open theses that were approved, and, where the maintainer is to be asked,
/// those that were submitted and not turned down.
pub proof fn what_the_queue_holds(theses: Vec<ThesisState>, auto_approve: bool, r: usize)
    requires
        call_ensures(state::count_queue_depth, (&theses, auto_approve), r),
    ensures
        r == theses@.filter(
            |t: ThesisState|
                t.issue.state@ == "OPEN"@ && (t.phase == ThesisPhase::Approved || (!auto_approve
                    && t.phase == ThesisPhase::Submitted && !t.maintainer_rejected)),
        ).len(),
{
    lemma_queue(theses@, auto_approve);
}

/// Of two metrics one is taken, and it is at least as good as both; the first stays where the
/// second is no better.
pub proof fn the_better_metric_is_taken(
    a: Metric,
    b: Metric,
    direction: MetricDirection,
    r: Metric,
    s: Metric,
)
    requires
        call_ensures(state::select_metric, (Some(a), b, direction), r),
        call_ensures(state::select_metric, (None, b, direction), s),
    ensures
        s == b,
        r == a || r == b,
        !metric::not_a_number(a.bits) ==> good_as(r.bits, a.bits, direction) && good_as(
            r.bits,
            b.bits,
            direction,
        ),
        metric::not_a_number(a.bits) ==> r == b,
        good_as(a.bits, b.bits, direction) ==> r == a,
{
}

/// What is committed is added pattern by pattern, and what is protected is taken out again after
/// that, whatever was added.
pub proof fn what_is_protected_is_not_committed(w: ThesisWorker, r: Vec<Vec<String>>, i: int, j: int)
    requires
        call_ensures(ThesisWorker::commit_editable_surface, (&w,), r),
    ensures
        ({
            let open = w.ctx.editable_globs@;
            let closed = w.ctx.protected_globs@;
            &&& r@.len() == open.len() + 4 + closed.len()
            &&& 0 <= i < open.len() ==> r@[i]@.len() == 2 && r@[i]@[0]@ == "add"@ && r@[i]@[1]@
                == open[i]@
            &&& open.len() <= j < r@.len() ==> r@[j]@.len() == 4 && r@[j]@[0]@ == "reset"@
                && r@[j]@[1]@ == "HEAD"@ && r@[j]@[2]@ == "--"@
            &&& r@[open.len() as int]@[3]@ == ".polyresearch/"@
            &&& r@[open.len() as int + 1]@[3]@ == ".polyresearch-node.toml"@
            &&& r@[open.len() as int + 2]@[3]@ == "PROGRAM.md"@
            &&& r@[open.len() as int + 3]@[3]@ == "PREPARE.md"@
            &&& 0 <= j - open.len() - 4 < closed.len() ==> r@[j]@[3]@ == closed[j - open.len()
                - 4]@
        }),
{
    let open = text::texts(w.ctx.editable_globs@);
    let closed = text::texts(w.ctx.protected_globs@);
    let all = worker::lists(r@);
    assert(open.len() == w.ctx.editable_globs@.len());
    assert(closed.len() == w.ctx.protected_globs@.len());
    assert(editable_surface::always_protected().len() == 4);
    assert(all.len() == r@.len());
    let n = open.len() as int;
    if 0 <= i < n {
        lemma_command(r, i);
        assert(all[i] == worker::add_command(open[i]));
    }
    if n <= j < r@.len() {
        lemma_command(r, j);
        if j < n + 4 {
            assert(all[j] == worker::reset_command(editable_surface::always_protected()[j - n]));
        } else {
            assert(all[j] == worker::reset_command(closed[j - n - 4]));
        }
    }
    lemma_command(r, n);
    lemma_command(r, n + 1);
    lemma_command(r, n + 2);
    lemma_command(r, n + 3);
    assert(all[n] == worker::reset_command(editable_surface::always_protected()[0]));
    assert(all[n + 1] == worker::reset_command(editable_surface::always_protected()[1]));
    assert(all[n + 2] == worker::reset_command(editable_surface::always_protected()[2]));
    assert(all[n + 3] == worker::reset_command(editable_surface::always_protected()[3]));
}

proof fn lemma_command(r: Vec<Vec<String>>, i: int)
    requires
        0 <= i < r@.len(),
    ensures
        worker::lists(r@)[i] == text::texts(r@[i]@),
        worker::lists(r@)[i].len() == r@[i]@.len(),
        forall|k: int|
            0 <= k < r@[i]@.len() ==> worker::lists(r@)[i][k] == (#[trigger] r@[i]@[k])@,
{
    assert(worker::lists(r@)[i] == text::texts(r@[i]@));
    assert forall|k: int| 0 <= k < r@[i]@.len() implies worker::lists(r@)[i][k] == (
    #[trigger] r@[i]@[k])@ by {}
}

/// The text is what stands ahead of the account of an attempt, that account and what follows.
pub open spec fn accounts_between(
    s: Seq<char>,
    a: Seq<char>,
    number: nat,
    x: AttemptRecord,
    b: Seq<char>,
) -> bool {
    s == a + "### Attempt "@ + text::decimal(number) + " (branch: "@ + x.branch@
        + ")\n- Metric: "@ + x.metric.text@ + "\n- Baseline: "@ + (match x.baseline_metric {
        Some(m) => m.text@,
        None => "N/A"@,
    }) + "\n- Observation: "@ + x.observation.word() + "\n- Summary: "@ + x.summary@ + "\n\n"@ + b
}

proof fn lemma_told(attempts: Seq<AttemptRecord>, i: int) -> (r: (Seq<char>, Seq<char>))
    requires
        0 <= i < attempts.len(),
    ensures
        worker::told_attempts(attempts) == r.0 + worker::told_attempt(
            attempts[i],
            (i + 1) as nat,
        ) + r.1,
    decreases attempts.len(),
{
    let rest = attempts.drop_last();
    let all = worker::told_attempts(attempts);
    let last = worker::told_attempt(attempts.last(), attempts.len());
    let t = worker::told_attempt(attempts[i], (i + 1) as nat);
    if i < rest.len() {
        let (a, b) = lemma_told(rest, i);
        assert(rest[i] == attempts[i]);
        assert(all =~= a + t + (b + last));
        (a, b + last)
    } else {
        let a = worker::told_attempts(rest);
        assert(all =~= a + t + Seq::<char>::empty());
        (a, Seq::empty())
    }
}

proof fn lemma_account(s: Seq<char>, a: Seq<char>, number: nat, x: AttemptRecord, b: Seq<char>)
    requires
        s == a + worker::told_attempt(x, number) + b,
    ensures
        accounts_between(s, a, number, x, b),
{
    assert(s =~= a + "### Attempt "@ + text::decimal(number) + " (branch: "@ + x.branch@
        + ")\n- Metric: "@ + x.metric.text@ + "\n- Baseline: "@ + (match x.baseline_metric {
        Some(m) => m.text@,
        None => "N/A"@,
    }) + "\n- Observation: "@ + x.observation.word() + "\n- Summary: "@ + x.summary@ + "\n\n"@ + b);
}

/// Each attempt that was made before is told, with its number, its own branch, metric, baseline and
/// summary.
pub proof fn each_prior_attempt_is_told(t: ThesisState, i: int, r: String)
    requires
        call_ensures(worker::format_prior_attempts, (&t,), r),
        0 <= i < t.attempts@.len(),
    ensures
        exists|a: Seq<char>, b: Seq<char>| #[trigger]
            accounts_between(r@, a, (i + 1) as nat, t.attempts@[i], b),
{
    let (a, b) = lemma_told(t.attempts@, i);
    lemma_account(r@, a, (i + 1) as nat, t.attempts@[i], b);
    assert(accounts_between(r@, a, (i + 1) as nat, t.attempts@[i], b));
}

/// The end of the work names its thesis and the directory it was done in.
pub proof fn what_the_end_of_work_names(o: &WorkerOutcome, n: u64, p: &str)
    requires
        call_ensures(WorkerOutcome::issue_number, (o,), n),
        call_ensures(WorkerOutcome::worktree_path, (o,), p),
    ensures
        *o matches WorkerOutcome::Improved { issue_number, worktree_path, .. } ==> n == issue_number
            && p@ == worktree_path@,
        *o matches WorkerOutcome::NoImprovement { issue_number, worktree_path, .. } ==> n
            == issue_number && p@ == worktree_path@,
        *o matches WorkerOutcome::Failed { issue_number, worktree_path, .. } ==> n == issue_number
            && p@ == worktree_path@,
{
}

/// Requests are told of where the command line or the variable asks for it; once that is settled
/// the variable does not matter.
pub proof fn when_requests_are_told_of(
    cli: bool,
    env: &str,
    yes: bool,
    r: DebugState,
    s: DebugState,
    on: bool,
    off: bool,
    unset: bool,
    none: bool,
)
    requires
        call_ensures(github_debug::parse_truthy_flag, (env,), yes),
        call_ensures(github_debug::init, (cli, Some(env)), r),
        call_ensures(github_debug::init, (cli, None), s),
        call_ensures(github_debug::enabled, (DebugState::Enabled, Some(env)), on),
        call_ensures(github_debug::enabled, (DebugState::Disabled, Some(env)), off),
        call_ensures(github_debug::enabled, (DebugState::Unset, Some(env)), unset),
        call_ensures(github_debug::enabled, (DebugState::Unset, None), none),
    ensures
        r == DebugState::Enabled <==> cli || yes,
        r == DebugState::Disabled <==> !cli && !yes,
        s == DebugState::Enabled <==> cli,
        s == DebugState::Disabled <==> !cli,
        on,
        !off,
        unset == yes,
        !none,
{
}

/// What says yes, in letters of any case and with blanks around or not.
pub proof fn what_says_yes(env: &str, trimmed: &str, lowered: String, yes: bool)
    requires
        call_ensures(github_debug::parse_truthy_flag, (env,), yes),
        call_ensures(text::trim, (env,), trimmed),
        call_ensures(text::to_ascii_lowercase, (trimmed,), lowered),
    ensures
        yes <==> lowered@ == "1"@ || lowered@ == "true"@ || lowered@ == "yes"@ || lowered@ == "on"@
            || lowered@ == "api"@,
{
}

} // verus!
