//! What holds of agents: how they are started and what is read from what they leave.
use crate::agent;
use crate::agent::{ExperimentResult, HarnessSpec, LogFile, Poll, Reading, RecoveredMetric};
use crate::cycle_guard;
use crate::metric::Metric;
use crate::preflight;
use crate::sort;
use crate::text;
use crate::text_set;
use vstd::prelude::*;

verus! {

/// An agent that runs is ended exactly where its time is over; one that has ended is left alone.
pub proof fn when_an_agent_is_ended(has_ended: bool, overdue: bool, r: Poll)
    requires
        call_ensures(agent::poll, (has_ended, overdue), r),
    ensures
        r == Poll::Kill <==> !has_ended && overdue,
        r == Poll::Ended <==> has_ended,
        r == Poll::Wait <==> !has_ended && !overdue,
{
}

/// No report is of two kinds, and none is of a kind that it does not name.
pub proof fn a_report_is_of_one_kind(e: ExperimentResult, a: bool, b: bool, c: bool, d: bool)
    requires
        call_ensures(ExperimentResult::is_improved, (&e,), a),
        call_ensures(ExperimentResult::is_no_improvement, (&e,), b),
        call_ensures(ExperimentResult::is_crashed, (&e,), c),
        call_ensures(ExperimentResult::is_infra_failure, (&e,), d),
    ensures
        a ==> !b && !c && !d,
        b ==> !c && !d,
        c ==> !d,
        a <==> e.observation@ == "improved"@,
        b <==> e.observation@ == "no_improvement"@,
        c <==> e.observation@ == "crashed"@,
        d <==> e.observation@ == "infra_failure"@,
{
    reveal_strlit("improved");
    reveal_strlit("no_improvement");
    reveal_strlit("crashed");
    reveal_strlit("infra_failure");
    assert("improved"@.len() == 8);
    assert("no_improvement"@.len() == 14);
    assert("crashed"@.len() == 7);
    assert("infra_failure"@.len() == 13);
}

proof fn lemma_tail(s: Seq<char>, room: nat) -> (k: int)
    ensures
        0 <= k <= s.len(),
        agent::tail(s, room) == s.skip(k),
        text::size(s.skip(k)) <= room,
        forall|j: int| 0 <= j < k ==> text::size(#[trigger] s.skip(j)) > room,
    decreases s.len(),
{
    assert(s.skip(0) =~= s);
    if s.len() == 0 || text::size(s) <= room {
        if s.len() == 0 {
            assert(s =~= Seq::empty());
        }
        0
    } else {
        let t = s.drop_first();
        let k = lemma_tail(t, room);
        assert(t.skip(k) =~= s.skip(k + 1));
        assert forall|j: int| 0 <= j < k + 1 implies text::size(#[trigger] s.skip(j)) > room by {
            if j > 0 {
                assert(t.skip(j - 1) =~= s.skip(j));
            }
        }
        k + 1
    }
}

/// What is shown of a long output is its end, within the room that there is; an end that starts
/// earlier does not fit.
pub proof fn the_shown_end_is_the_longest_that_fits(s: &str, room: usize, r: String)
    requires
        call_ensures(agent::tail_str, (s, room), r),
    ensures
        exists|k: int|
            0 <= k <= s@.len() && r@ == #[trigger] s@.skip(k) && text::size(r@) <= room && forall|
                j: int,
            |
                0 <= j < k ==> text::size(#[trigger] s@.skip(j)) > room,
{
    let k = lemma_tail(s@, room as nat);
    assert(r@ == s@.skip(k));
}

/// A metric is taken before a throughput, and neither where it is no number.
pub proof fn a_metric_goes_before_a_throughput(
    m: Option<String>,
    o: Option<String>,
    m_reads: bool,
    o_reads: bool,
    mt: &str,
    ot: &str,
    r: Option<String>,
)
    requires
        call_ensures(agent::pick, (m, o), r),
        m matches Some(t) ==> mt@ == t@,
        o matches Some(t) ==> ot@ == t@,
        call_ensures(crate::metric::is_number_literal, (mt,), m_reads),
        call_ensures(crate::metric::is_number_literal, (ot,), o_reads),
    ensures
        m is Some && m_reads ==> (r matches Some(t) && t@ == mt@),
        !(m is Some && m_reads) && o is Some && o_reads ==> (r matches Some(t) && t@ == ot@),
        !(m is Some && m_reads) && !(o is Some && o_reads) ==> r is None,
{
}

/// What an output gives is looked for as a line of its own for the metric, and anywhere for the
/// throughput.
pub proof fn where_a_number_is_looked_for(output: &str, r: Option<String>)
    requires
        call_ensures(agent::find_number, (output,), r),
    ensures
        r matches Some(t) ==> agent::captured(r"(?m)^METRIC=(\d+\.?\d*)$"@, output@) == Some(t@)
            || agent::captured(r"ops_per_sec=(\d+\.?\d*)"@, output@) == Some(t@),
        agent::captured(r"(?m)^METRIC=(\d+\.?\d*)$"@, output@) is None && agent::captured(
            r"ops_per_sec=(\d+\.?\d*)"@,
            output@,
        ) is None ==> r is None,
{
}

/// The file is the readable log of a run, and gives the number.
pub open spec fn log_gives(f: LogFile, n: Option<Seq<char>>) -> bool {
    &&& text::begins(f.name@, "run-"@)
    &&& text::ends(f.name@, ".log"@)
    &&& f.contents matches Some(c) && agent::number_in(c@) == n
}

proof fn lemma_last_number(files: Seq<LogFile>) -> (k: int)
    ensures
        agent::last_number(files) matches Some(n) ==> 0 <= k < files.len() && log_gives(
            files[k],
            Some(n),
        ) && forall|j: int, m: Seq<char>|
            k < j < files.len() ==> !#[trigger] log_gives(files[j], Some(m)),
        agent::last_number(files) is None ==> forall|j: int, m: Seq<char>|
            0 <= j < files.len() ==> !#[trigger] log_gives(files[j], Some(m)),
    decreases files.len(),
{
    if files.len() == 0 {
        0
    } else {
        let f = files.last();
        let rest = files.drop_last();
        let k = lemma_last_number(rest);
        assert forall|j: int, m: Seq<char>|
            0 <= j < rest.len() && #[trigger] log_gives(files[j], Some(m)) implies log_gives(
            rest[j],
            Some(m),
        ) by {
            assert(rest[j] == files[j]);
        }
        if f.contents is Some && agent::is_run_log(f.name@) && agent::number_in(
            f.contents->Some_0@,
        ) is Some {
            files.len() - 1
        } else {
            if 0 <= k < rest.len() {
                assert(rest[k] == files[k]);
            }
            k
        }
    }
}

/// A number that is had from logs is that of a run's log, and no log whose name is greater gives
/// one. Nothing is had only where no log gives a number.
pub proof fn the_last_log_counts(files: Vec<LogFile>, r: Option<String>)
    requires
        call_ensures(agent::recover_from_logs, (files,), r),
    ensures
        r matches Some(t) ==> exists|i: int|
            0 <= i < files@.len() && #[trigger] log_gives(files@[i], Some(t@)) && forall|
                j: int,
                m: Seq<char>,
            |
                0 <= j < files@.len() && text_set::precedes(files@[i].name@, files@[j].name@)
                    ==> !#[trigger] log_gives(files@[j], Some(m)),
        r is None ==> forall|j: int, m: Seq<char>|
            0 <= j < files@.len() ==> !#[trigger] log_gives(files@[j], Some(m)),
{
    broadcast use vstd::seq_lib::group_to_multiset_ensures;

    let all = sort::sorted(files@);
    sort::sorted_is_ordered_and_complete(files@);
    let k = lemma_last_number(all);
    if let Some(t) = r {
        assert(all.to_multiset().contains(all[k]));
        assert(files@.contains(all[k]));
        let i = choose|i: int| 0 <= i < files@.len() && files@[i] == all[k];
        assert(log_gives(files@[i], Some(t@)));
        assert forall|j: int, m: Seq<char>|
            0 <= j < files@.len() && text_set::precedes(
                files@[i].name@,
                files@[j].name@,
            ) implies !#[trigger] log_gives(files@[j], Some(m)) by {
            assert(files@.contains(files@[j]));
            assert(files@.to_multiset().contains(files@[j]));
            assert(all.contains(files@[j]));
            let q = choose|q: int| 0 <= q < all.len() && all[q] == files@[j];
            if q < k {
                assert(!sort::Ranked::after(all[q], all[k]));
            } else if q == k {
                text_set::lemma_precedes_total(files@[i].name@, files@[j].name@);
            }
            assert(q > k);
            assert(!log_gives(all[q], Some(m)));
        }
    } else {
        assert forall|j: int, m: Seq<char>| 0 <= j < files@.len() implies !#[trigger] log_gives(
            files@[j],
            Some(m),
        ) by {
            assert(files@.contains(files@[j]));
            assert(files@.to_multiset().contains(files@[j]));
            assert(all.contains(files@[j]));
            let q = choose|q: int| 0 <= q < all.len() && all[q] == files@[j];
            assert(!log_gives(all[q], Some(m)));
        }
    }
}

/// Logs give no baseline. Runs of the harness give what they gave for the candidate as the metric
/// and for the default branch as the baseline, and nothing where one of them gave nothing.
pub proof fn what_a_recovered_metric_holds(
    m: Metric,
    candidate: Option<Metric>,
    baseline: Option<Metric>,
    a: RecoveredMetric,
    b: Option<RecoveredMetric>,
)
    requires
        call_ensures(agent::from_logs, (m,), a),
        call_ensures(agent::from_harness, (candidate, baseline), b),
    ensures
        a.metric == m,
        a.baseline is None,
        b is Some <==> candidate is Some && baseline is Some,
        b matches Some(x) ==> Some(x.metric) == candidate && x.baseline == baseline,
{
}

/// A harness of the project's own goes before the others, and none is made up.
pub proof fn which_harness_is_run(own: bool, js: bool, mjs: bool, r: Option<HarnessSpec>)
    requires
        call_ensures(agent::find_harness, (own, js, mjs), r),
    ensures
        r is Some <==> own || js || mjs,
        r matches Some(h) ==> (h.relative_path@ == ".polyresearch/run.sh"@ <==> own),
        r matches Some(h) ==> (h.relative_path@ == "bench.js"@ <==> !own && js),
        r matches Some(h) ==> (h.relative_path@ == "bench.mjs"@ <==> !own && !js),
        r matches Some(h) ==> (h.runner@ == "bash"@ <==> own),
        r matches Some(h) ==> (h.runner@ == "node"@ <==> !own),
{
    reveal_strlit(".polyresearch/run.sh");
    reveal_strlit("bench.js");
    reveal_strlit("bench.mjs");
    reveal_strlit("bash");
    reveal_strlit("node");
    assert(".polyresearch/run.sh"@.len() == 20);
    assert("bench.js"@.len() == 8);
    assert("bench.mjs"@.len() == 9);
    assert("bash"@[0] == 'b');
    assert("node"@[0] == 'n');
}

/// The line gives the value for the key: the two with a colon between them, and blanks around.
pub open spec fn line_gives(line: Seq<char>, key: Seq<char>, value: Seq<char>) -> bool {
    &&& value.len() > 0
    &&& exists|k: Seq<char>, v: Seq<char>| #[trigger]
        text::cut(text::trimmed(line), ":"@) == Some((k, v)) && text::trimmed(k) == key
            && text::trimmed(v) == value
}

proof fn lemma_line_gives(line: Seq<char>, key: Seq<char>, value: Seq<char>)
    ensures
        line_gives(line, key, value) <==> agent::value_in_line(line, key) == Some(value),
{
    if agent::value_in_line(line, key) == Some(value) {
        let (k, v) = text::cut(text::trimmed(line), ":"@)->Some_0;
        assert(text::cut(text::trimmed(line), ":"@) == Some((k, v)));
    }
}

proof fn lemma_value_of(lines: Seq<Seq<char>>, key: Seq<char>, i: int) -> (n: int)
    requires
        0 <= i <= lines.len(),
    ensures
        agent::value_of(lines, key, i) matches Some(v) ==> i <= n < lines.len() && line_gives(
            lines[n],
            key,
            v,
        ) && forall|j: int, w: Seq<char>|
            i <= j < n ==> !#[trigger] line_gives(lines[j], key, w),
        agent::value_of(lines, key, i) is None ==> forall|j: int, w: Seq<char>|
            i <= j < lines.len() ==> !#[trigger] line_gives(lines[j], key, w),
    decreases lines.len() - i,
{
    assert forall|j: int, w: Seq<char>| 0 <= j < lines.len() implies (#[trigger] line_gives(
        lines[j],
        key,
        w,
    ) <==> agent::value_in_line(lines[j], key) == Some(w)) by {
        lemma_line_gives(lines[j], key, w);
    }
    if i >= lines.len() {
        i
    } else if let Some(v) = agent::value_in_line(lines[i], key) {
        assert(line_gives(lines[i], key, v));
        i
    } else {
        lemma_value_of(lines, key, i + 1)
    }
}

/// A key has the value that the first line gives that gives one for it, and none where no line does.
pub proof fn the_first_line_with_a_value_counts(c: &str, key: &str, r: Option<String>)
    requires
        call_ensures(agent::parse_prepare_key, (Some(c), key), r),
    ensures
        ({
            let lines = text::lines_of(c@);
            &&& r matches Some(v) ==> exists|n: int|
                0 <= n < lines.len() && #[trigger] line_gives(lines[n], key@, v@) && forall|
                    j: int,
                    w: Seq<char>,
                |
                    0 <= j < n ==> !#[trigger] line_gives(lines[j], key@, w)
            &&& r is None ==> forall|j: int, w: Seq<char>|
                0 <= j < lines.len() ==> !#[trigger] line_gives(lines[j], key@, w)
        }),
{
    let n = lemma_value_of(text::lines_of(c@), key@, 0);
}

/// What stands in double quotes is one word, whatever it holds but a double quote and a backslash.
pub proof fn double_quotes_keep_all(s: Seq<char>, command: &str, r: Vec<String>)
    requires
        s.len() > 0,
        forall|i: int| 0 <= i < s.len() ==> #[trigger] s[i] != '"' && s[i] != '\\',
        command@ == seq!['"'] + s + seq!['"'],
        call_ensures(agent::shell_words, (command,), r),
    ensures
        r@.len() == 1,
        r@[0]@ == s,
{
    let open = seq!['"'] + s;
    let whole = command@;
    lemma_in_double_quotes(s);
    assert(whole.drop_last() =~= open);
    assert(whole.last() == '"');
    assert(agent::words_in(whole) =~= seq![s]);
    assert(text::texts(r@).len() == r@.len());
    assert(text::texts(r@)[0] == r@[0]@);
}

proof fn lemma_in_double_quotes(s: Seq<char>)
    requires
        forall|i: int| 0 <= i < s.len() ==> #[trigger] s[i] != '"' && s[i] != '\\',
    ensures
        agent::read_line(seq!['"'] + s) == (Reading {
            words: Seq::empty(),
            current: s,
            in_single_quote: false,
            in_double_quote: true,
            escape_next: false,
        }),
    decreases s.len(),
{
    let t = seq!['"'] + s;
    if s.len() == 0 {
        assert(t.drop_last() =~= Seq::<char>::empty());
        assert(t.last() == '"');
        assert(s =~= Seq::<char>::empty());
        reveal_with_fuel(agent::read_line, 2);
    } else {
        let rest = s.drop_last();
        assert forall|i: int| 0 <= i < rest.len() implies #[trigger] rest[i] != '"' && rest[i]
            != '\\' by {
            assert(rest[i] == s[i]);
        }
        lemma_in_double_quotes(rest);
        assert(t.drop_last() =~= seq!['"'] + rest);
        assert(t.last() == s.last());
        assert(s[s.len() - 1] == s.last());
        assert(rest.push(s.last()) =~= s);
    }
}

/// A backslash keeps the character behind it as it is, whatever it is.
pub proof fn a_backslash_keeps_the_next_character(c: char, command: &str, r: Vec<String>)
    requires
        command@ == seq!['\\', c],
        call_ensures(agent::shell_words, (command,), r),
    ensures
        r@.len() == 1,
        r@[0]@ == seq![c],
{
    let s = command@;
    reveal_with_fuel(agent::read_line, 3);
    assert(s.drop_last() =~= seq!['\\']);
    assert(s.drop_last().drop_last() =~= Seq::<char>::empty());
    assert(s.last() == c);
    assert(s.drop_last().last() == '\\');
    assert(Seq::<char>::empty().push(c) =~= seq![c]);
    assert(agent::words_in(s) =~= seq![seq![c]]);
    assert(text::texts(r@).len() == r@.len());
    assert(text::texts(r@)[0] == r@[0]@);
}

/// An agent is started by the words of its command line, and tried out by the same with a prompt
/// behind them; neither where there are none.
pub proof fn how_an_agent_is_started(
    command: &str,
    words: Vec<String>,
    r: Result<Vec<String>, String>,
    smoke: Result<Vec<String>, String>,
    k: int,
)
    requires
        call_ensures(agent::shell_words, (command,), words),
        call_ensures(agent::command_parts, (command,), r),
        call_ensures(preflight::smoke_command, (command,), smoke),
    ensures
        r is Ok <==> words@.len() > 0,
        smoke is Ok <==> words@.len() > 0,
        r matches Ok(v) ==> v@.len() == words@.len() && (0 <= k < v@.len() ==> v@[k]@
            == words@[k]@),
        smoke matches Ok(v) ==> v@.len() == words@.len() + 1 && (0 <= k < words@.len() ==> v@[k]@
            == words@[k]@) && v@.last()@ == "Respond with exactly: PREFLIGHT_OK"@,
{
    let all = text::texts(words@);
    assert(all.len() == words@.len());
    if 0 <= k < words@.len() {
        assert(all[k] == words@[k]@);
    }
    if let Ok(v) = r {
        assert(text::texts(v@).len() == v@.len());
        if 0 <= k < v@.len() {
            assert(text::texts(v@)[k] == v@[k]@);
        }
    }
    if let Ok(v) = smoke {
        assert(text::texts(v@).len() == v@.len());
        assert(text::texts(v@)[v@.len() - 1] == v@[v@.len() - 1]@);
        if 0 <= k < words@.len() {
            assert(text::texts(v@)[k] == v@[k]@);
        }
    }
}

/// What an agent is told of a thesis starts with its title and its text, and holds what was tried
/// before only where something was.
pub proof fn what_an_agent_is_told(title: &str, body: &str, prior: &str, r: String)
    requires
        call_ensures(agent::write_thesis_context, (title, body, prior), r),
    ensures
        exists|rest: Seq<char>| #[trigger]
            ("# Thesis: "@ + title@ + "\n\n"@ + body@ + "\n"@ + rest) == r@ && (if prior@.len()
                == 0 {
                rest.len() == 0
            } else {
                rest == "\n## Prior attempts\n\n"@ + prior@ + "\n"@
            }),
{
    let first = "# Thesis: "@ + title@ + "\n\n"@ + body@ + "\n"@;
    if prior@.len() == 0 {
        assert(first + Seq::<char>::empty() =~= r@);
    } else {
        assert(first + ("\n## Prior attempts\n\n"@ + prior@ + "\n"@) =~= r@);
    }
}

/// An agent without permissions is refused to the superuser alone.
pub proof fn who_may_skip_permissions(
    command: &str,
    is_root: bool,
    program: &str,
    flag: &str,
    holds: bool,
    r: Result<(), String>,
)
    requires
        call_ensures(preflight::check_root_dangerous_flag, (command, is_root, program), r),
        flag@ == "--dangerously-skip-permissions"@,
        call_ensures(text::contains, (command, flag), holds),
    ensures
        r is Err <==> holds && is_root,
{
}

/// Only the number nought is the superuser's, whatever blanks are around it.
pub proof fn whose_number_is_nought(output: &str, trimmed: &str, r: bool)
    requires
        call_ensures(preflight::is_root_id, (output,), r),
        call_ensures(text::trim, (output,), trimmed),
    ensures
        r <==> trimmed@ == seq!['0'],
{
    reveal_strlit("0");
    assert("0"@ =~= seq!['0']);
}

/// Work starts only where nothing has changed, whether it was staged or not.
pub proof fn work_starts_on_a_clean_tree(
    unstaged: bool,
    staged: bool,
    status: &str,
    r: Result<(), String>,
)
    requires
        call_ensures(preflight::check_clean_working_tree, (unstaged, staged, status), r),
    ensures
        r is Ok <==> unstaged && staged,
{
}

/// A second cycle is refused exactly where the guard says that the first is done.
pub proof fn a_second_cycle_is_refused(
    state: &str,
    trimmed: &str,
    r: Result<(), String>,
    none: Result<(), String>,
)
    requires
        call_ensures(cycle_guard::check_cycle_limit, (Some(state),), r),
        call_ensures(cycle_guard::check_cycle_limit, (None,), none),
        call_ensures(text::trim, (state,), trimmed),
    ensures
        r is Err <==> trimmed@ == "done"@,
        none is Ok,
{
}

} // verus!
