//! The agent that makes experiments: how it is called, and what is read from what it leaves.
use crate::metric;
use crate::metric::Metric;
use crate::sort;
use crate::sort::Ranked;
use crate::text;
use crate::text_set;
use vstd::prelude::*;
use vstd::string::*;
use vstd::utf8;

verus! {

/// How many bytes of an agent's output are shown.
pub const STDOUT_TAIL_LIMIT: usize = 2000;

/// What an experiment gave.
#[derive(Debug)]
pub struct ExperimentResult {
    pub metric: Metric,
    pub baseline: Option<Metric>,
    pub observation: String,
    pub summary: String,
}

impl ExperimentResult {
    /// Whether the metric improved.
    pub fn is_improved(&self) -> (r: bool)
        ensures
            r == (self.observation@ == "improved"@),
    {
        text::same(self.observation.as_str(), "improved")
    }

    /// Whether the metric did not improve.
    pub fn is_no_improvement(&self) -> (r: bool)
        ensures
            r == (self.observation@ == "no_improvement"@),
    {
        text::same(self.observation.as_str(), "no_improvement")
    }

    /// Whether the experiment crashed.
    pub fn is_crashed(&self) -> (r: bool)
        ensures
            r == (self.observation@ == "crashed"@),
    {
        text::same(self.observation.as_str(), "crashed")
    }

    /// Whether the machine failed.
    pub fn is_infra_failure(&self) -> (r: bool)
        ensures
            r == (self.observation@ == "infra_failure"@),
    {
        text::same(self.observation.as_str(), "infra_failure")
    }
}

/// A metric that was had without the agent's own report.
#[derive(Debug)]
pub struct RecoveredMetric {
    pub metric: Metric,
    pub baseline: Option<Metric>,
    pub summary: String,
}

/// A thesis that an agent proposes.
#[derive(Debug)]
pub struct ThesisProposal {
    pub title: String,
    pub body: String,
}

/// How an agent ended.
#[derive(Debug)]
pub enum AgentOutcome {
    Completed(Option<ExperimentResult>),
    TimedOut,
}

/// What to do about an agent that was started.
#[derive(Clone, Copy, Debug, PartialEq, Eq, Structural)]
pub enum Poll {
    /// It has ended.
    Ended,
    /// Its time is over: end it.
    Kill,
    /// Look again later.
    Wait,
}

/// What to do about an agent, which may have ended, and whose time may be over.
pub fn poll(has_ended: bool, is_overdue: bool) -> (r: Poll)
    ensures
        r == (if has_ended {
            Poll::Ended
        } else if is_overdue {
            Poll::Kill
        } else {
            Poll::Wait
        }),
{
    if has_ended {
        Poll::Ended
    } else if is_overdue {
        Poll::Kill
    } else {
        Poll::Wait
    }
}

/// The longest end of a text that takes no more bytes than there is room for.
pub open spec fn tail(s: Seq<char>, room: nat) -> Seq<char>
    decreases s.len(),
{
    if s.len() == 0 || text::size(s) <= room {
        s
    } else {
        tail(s.drop_first(), room)
    }
}

/// The bytes that a character takes.
pub open spec fn width(c: char) -> nat {
    if (c as u32) < 0x80 {
        1
    } else if (c as u32) < 0x800 {
        2
    } else if (c as u32) < 0x10000 {
        3
    } else {
        4
    }
}

proof fn lemma_size(s: Seq<char>, k: int)
    requires
        0 <= k < s.len(),
    ensures
        text::size(s.skip(k)) == width(s[k]) + text::size(s.skip(k + 1)),
{
    let c = s[k] as u32;
    utf8::char_is_scalar(s[k]);
    assert(s.skip(k)[0] == s[k]);
    assert(s.skip(k).drop_first() =~= s.skip(k + 1));
    assert(utf8::encode_scalar(c).len() == width(s[k]));
    assert(utf8::encode_utf8(s.skip(k)) == utf8::encode_scalar(c) + utf8::encode_utf8(
        s.skip(k + 1),
    ));
}

proof fn lemma_tail(s: Seq<char>, room: nat, j: int, k: int)
    requires
        0 <= j <= k <= s.len(),
        text::size(s.skip(k)) <= room,
        k > 0 ==> text::size(s.skip(k - 1)) > room,
    ensures
        tail(s.skip(j), room) == s.skip(k),
        j < k ==> text::size(s.skip(j)) > room,
    decreases k - j,
{
    if j < k {
        lemma_tail(s, room, j + 1, k);
        lemma_size(s, j);
        assert(s.skip(j).drop_first() =~= s.skip(j + 1));
    }
}

fn char_width(c: char) -> (r: usize)
    ensures
        r == width(c),
{
    let code: u32 = c as u32;
    if code < 0x80 {
        1
    } else if code < 0x800 {
        2
    } else if code < 0x10000 {
        3
    } else {
        4
    }
}

/// The longest end of a text that takes no more bytes than there is room for.
pub fn tail_str(s: &str, max_bytes: usize) -> (r: String)
    ensures
        r@ == tail(s@, max_bytes as nat),
{
    let v: Vec<char> = text::chars_of(s);
    let n: usize = v.len();
    let mut k: usize = n;
    let mut room: usize = max_bytes;
    assert(v@.skip(n as int) =~= Seq::<char>::empty());
    while k > 0 && char_width(v[k - 1]) <= room
        invariant
            k <= n,
            n == v.len(),
            room <= max_bytes,
            text::size(v@.skip(k as int)) + room == max_bytes,
        decreases k,
    {
        proof {
            lemma_size(v@, k - 1);
        }
        room = room - char_width(v[k - 1]);
        k = k - 1;
    }
    proof {
        if k > 0 {
            lemma_size(v@, k - 1);
        }
        lemma_tail(v@, max_bytes as nat, 0, k as int);
        assert(v@.skip(0) =~= v@);
        assert(v@.subrange(k as int, n as int) =~= v@.skip(k as int));
    }
    text::string_of(&v, k, n)
}

/// What is said of a command that failed: its status and its output.
pub open spec fn failure_notes(
    label: Seq<char>,
    code: Option<Seq<char>>,
    stdout: Seq<char>,
    stderr: Seq<char>,
) -> Seq<Seq<char>> {
    let first = label + " exited with status "@ + (match code {
        Some(c) => c,
        None => "signal"@,
    });
    let err = text::trimmed(stderr);
    let out = text::trimmed(stdout);
    if err.len() == 0 && out.len() == 0 {
        seq![first, "  (no output captured from subprocess)"@]
    } else if out.len() == 0 {
        seq![first, "  stderr: "@ + err]
    } else if err.len() == 0 {
        seq![first, "  stdout (last): "@ + tail(out, STDOUT_TAIL_LIMIT as nat)]
    } else {
        seq![
            first,
            "  stderr: "@ + err,
            "  stdout (last): "@ + tail(out, STDOUT_TAIL_LIMIT as nat),
        ]
    }
}

/// What is said of a command that failed: its status and its output.
pub fn log_subprocess_failure(label: &str, code: Option<&str>, stdout: &str, stderr: &str) -> (r: Vec<
    String,
>)
    ensures
        text::texts(r@) == failure_notes(
            label@,
            match code {
                Some(c) => Some(c@),
                None => None,
            },
            stdout@,
            stderr@,
        ),
{
    let mut first = label.to_owned();
    first.append(" exited with status ");
    match code {
        Some(c) => first.append(c),
        None => first.append("signal"),
    }
    let err = text::trim(stderr);
    let out = text::trim(stdout);
    let mut stderr_note = "  stderr: ".to_owned();
    stderr_note.append(err);
    let mut stdout_note = "  stdout (last): ".to_owned();
    stdout_note.append(tail_str(out, STDOUT_TAIL_LIMIT).as_str());
    let ghost wanted = failure_notes(
        label@,
        match code {
            Some(c) => Some(c@),
            None => None,
        },
        stdout@,
        stderr@,
    );
    if err.unicode_len() == 0 && out.unicode_len() == 0 {
        let r = vec![first, "  (no output captured from subprocess)".to_owned()];
        assert(text::texts(r@) =~= wanted);
        r
    } else if out.unicode_len() == 0 {
        let r = vec![first, stderr_note];
        assert(text::texts(r@) =~= wanted);
        r
    } else if err.unicode_len() == 0 {
        let r = vec![first, stdout_note];
        assert(text::texts(r@) =~= wanted);
        r
    } else {
        let r = vec![first, stderr_note, stdout_note];
        assert(text::texts(r@) =~= wanted);
        r
    }
}

/// The pattern of a throughput in a log.
pub const OPS_PATTERN: &'static str = r"ops_per_sec=(\d+\.?\d*)";

/// The pattern of a metric in a log.
pub const METRIC_PATTERN: &'static str = r"(?m)^METRIC=(\d+\.?\d*)$";

/// What the first group holds in the first place where `regex::Regex::captures` finds the pattern
/// in a text; nothing where the pattern is none, is not found or leaves the group open.
pub uninterp spec fn captured(pattern: Seq<char>, s: Seq<char>) -> Option<Seq<char>>;

/// What the first group of a pattern holds in the first place where it is found in a text, by
/// `regex::Regex::new` and `regex::Regex::captures`.
#[verifier::external_body]
fn capture(pattern: &str, s: &str) -> (r: Option<String>)
    ensures
        match r {
            Some(t) => captured(pattern@, s@) == Some(t@),
            None => captured(pattern@, s@) is None,
        },
{
    let found = regex::Regex::new(pattern).ok()?.captures(s)?;
    Some(found.get(1)?.as_str().to_owned())
}

/// The number that an output gives: its metric where that reads as a number, else its throughput
/// where that does.
pub open spec fn picked(metric: Option<Seq<char>>, ops: Option<Seq<char>>) -> Option<Seq<char>> {
    if metric matches Some(m) && metric::number_literal(m) {
        metric
    } else if ops matches Some(o) && metric::number_literal(o) {
        ops
    } else {
        None
    }
}

/// A text that may be missing.
pub open spec fn option_view(t: Option<String>) -> Option<Seq<char>> {
    match t {
        Some(s) => Some(s@),
        None => None,
    }
}

/// The number that an output gives, of the metric and the throughput that were found in it.
pub fn pick(metric: Option<String>, ops: Option<String>) -> (r: Option<String>)
    ensures
        option_view(r) == picked(option_view(metric), option_view(ops)),
{
    if let Some(m) = metric {
        if metric::is_number_literal(m.as_str()) {
            return Some(m);
        }
    }
    if let Some(o) = ops {
        if metric::is_number_literal(o.as_str()) {
            return Some(o);
        }
    }
    None
}

/// The number that an output gives.
pub open spec fn number_in(output: Seq<char>) -> Option<Seq<char>> {
    picked(captured(METRIC_PATTERN@, output), captured(OPS_PATTERN@, output))
}

/// The number that an output gives, as it is written there.
pub fn find_number(output: &str) -> (r: Option<String>)
    ensures
        option_view(r) == number_in(output@),
{
    pick(capture(METRIC_PATTERN, output), capture(OPS_PATTERN, output))
}

/// A file of a directory: its name, and what it holds where it could be read.
#[derive(Debug)]
pub struct LogFile {
    pub name: String,
    pub contents: Option<String>,
}

impl Ranked for LogFile {
    open spec fn after(self, other: Self) -> bool {
        text_set::precedes(other.name@, self.name@)
    }

    proof fn one_way(a: Self, b: Self) {
        text_set::lemma_precedes_total(a.name@, b.name@);
    }

    proof fn carries_over(a: Self, b: Self, c: Self) {
        text_set::lemma_precedes_total(a.name@, b.name@);
        text_set::lemma_precedes_total(b.name@, c.name@);
        text_set::lemma_precedes_total(a.name@, c.name@);
        if text_set::precedes(c.name@, a.name@) {
            if text_set::precedes(a.name@, b.name@) {
                text_set::lemma_precedes_transitive(c.name@, a.name@, b.name@);
            }
        }
    }

    fn is_after(&self, other: &Self) -> (r: bool) {
        text_set::before(other.name.as_str(), self.name.as_str())
    }
}

/// The file is the log of a run.
pub open spec fn is_run_log(name: Seq<char>) -> bool {
    text::begins(name, "run-"@) && text::ends(name, ".log"@)
}

/// The number that the last of the logs with a number gives.
pub open spec fn last_number(files: Seq<LogFile>) -> Option<Seq<char>>
    decreases files.len(),
{
    if files.len() == 0 {
        None
    } else {
        let f = files.last();
        let found = if is_run_log(f.name@) && f.contents is Some {
            number_in(f.contents->Some_0@)
        } else {
            None
        };
        if found is Some {
            found
        } else {
            last_number(files.drop_last())
        }
    }
}

/// The number that the last log of a run with a number gives, in the order of the logs' names.
pub fn recover_from_logs(files: Vec<LogFile>) -> (r: Option<String>)
    ensures
        option_view(r) == last_number(sort::sorted(files@)),
{
    let ghost all = sort::sorted(files@);
    let ordered: Vec<LogFile> = sort::sort(files);
    let mut k: usize = ordered.len();
    assert(all.take(k as int) =~= all);
    while k > 0
        invariant
            k <= ordered.len(),
            ordered@ == all,
            all == sort::sorted(files@),
            last_number(all) == last_number(all.take(k as int)),
        decreases k,
    {
        let f = &ordered[k - 1];
        proof {
            assert(all.take(k as int).last() == *f);
            assert(all.take(k as int).drop_last() =~= all.take(k - 1));
        }
        if text::starts_with(f.name.as_str(), "run-") && text::ends_with(f.name.as_str(), ".log") {
            if let Some(contents) = &f.contents {
                let found = find_number(contents.as_str());
                if found.is_some() {
                    return found;
                }
            }
        }
        k = k - 1;
    }
    assert(all.take(0).len() == 0);
    None
}

/// A metric that was found in logs.
pub fn from_logs(metric: Metric) -> (r: RecoveredMetric)
    ensures
        r.metric == metric,
        r.baseline is None,
        r.summary@ == "Recovered from run logs"@,
{
    RecoveredMetric { metric, baseline: None, summary: "Recovered from run logs".to_owned() }
}

/// The metric that direct runs of the harness gave, where both of them gave one.
pub fn from_harness(candidate: Option<Metric>, baseline: Option<Metric>) -> (r: Option<
    RecoveredMetric,
>)
    ensures
        match (candidate, baseline) {
            (Some(c), Some(b)) => r matches Some(m) && m.metric == c && m.baseline == Some(b)
                && m.summary@ == "Recovered via direct harness execution"@,
            _ => r is None,
        },
{
    match (candidate, baseline) {
        (Some(c), Some(b)) => Some(
            RecoveredMetric {
                metric: c,
                baseline: Some(b),
                summary: "Recovered via direct harness execution".to_owned(),
            },
        ),
        _ => None,
    }
}

/// The program that runs a harness, and the harness.
#[derive(Debug)]
pub struct HarnessSpec {
    pub runner: String,
    pub relative_path: String,
}

/// The first harness that is there.
pub fn find_harness(has_run_script: bool, has_bench_js: bool, has_bench_mjs: bool) -> (r: Option<
    HarnessSpec,
>)
    ensures
        if has_run_script {
            r matches Some(h) && h.runner@ == "bash"@ && h.relative_path@
                == ".polyresearch/run.sh"@
        } else if has_bench_js {
            r matches Some(h) && h.runner@ == "node"@ && h.relative_path@ == "bench.js"@
        } else if has_bench_mjs {
            r matches Some(h) && h.runner@ == "node"@ && h.relative_path@ == "bench.mjs"@
        } else {
            r is None
        },
{
    if has_run_script {
        return Some(
            HarnessSpec {
                runner: "bash".to_owned(),
                relative_path: ".polyresearch/run.sh".to_owned(),
            },
        );
    }
    if has_bench_js {
        return Some(
            HarnessSpec { runner: "node".to_owned(), relative_path: "bench.js".to_owned() },
        );
    }
    if has_bench_mjs {
        return Some(
            HarnessSpec { runner: "node".to_owned(), relative_path: "bench.mjs".to_owned() },
        );
    }
    None
}

/// What a line gives for a key: what stands behind the colon, where that is not empty.
pub open spec fn value_in_line(line: Seq<char>, key: Seq<char>) -> Option<Seq<char>> {
    match text::cut(text::trimmed(line), ":"@) {
        Some((k, v)) => if text::trimmed(k) == key && text::trimmed(v).len() > 0 {
            Some(text::trimmed(v))
        } else {
            None
        },
        None => None,
    }
}

/// What the first line from `i` on that gives something for a key gives for it.
pub open spec fn value_of(lines: Seq<Seq<char>>, key: Seq<char>, i: int) -> Option<Seq<char>>
    decreases lines.len() - i,
{
    if i >= lines.len() {
        None
    } else {
        match value_in_line(lines[i], key) {
            Some(v) => Some(v),
            None => value_of(lines, key, i + 1),
        }
    }
}

/// What a text with keys and values gives for a key.
pub fn parse_prepare_key(contents: Option<&str>, key: &str) -> (r: Option<String>)
    ensures
        match contents {
            Some(c) => option_view(r) == value_of(text::lines_of(c@), key@, 0),
            None => r is None,
        },
{
    let lines = match contents {
        Some(c) => text::lines(c),
        None => {
            return None;
        },
    };
    let ghost all = text::texts(lines@);
    let mut i: usize = 0;
    while i < lines.len()
        invariant
            i <= lines.len(),
            all == text::texts(lines@),
            contents matches Some(c) && all == text::lines_of(c@),
            value_of(all, key@, 0) == value_of(all, key@, i as int),
        decreases lines.len() - i,
    {
        assert(all[i as int] == lines@[i as int]@);
        if let Some((k, v)) = text::split_once(text::trim(lines[i].as_str()), ":") {
            if text::same(text::trim(k), key) {
                let value = text::trim(v);
                if value.unicode_len() > 0 {
                    return Some(value.to_owned());
                }
            }
        }
        i = i + 1;
    }
    None
}

/// What is said where the command that prepares a run failed.
pub fn prereq_failure(code: Option<&str>) -> (r: String)
    ensures
        r@ == "prereq_command failed with status "@ + (match code {
            Some(c) => c@,
            None => "signal"@,
        }),
{
    let mut r = "prereq_command failed with status ".to_owned();
    match code {
        Some(c) => r.append(c),
        None => r.append("signal"),
    }
    r
}

/// What an agent is told of a thesis.
pub open spec fn thesis_context(title: Seq<char>, body: Seq<char>, prior: Seq<char>) -> Seq<char> {
    let first = "# Thesis: "@ + title + "\n\n"@ + body + "\n"@;
    if prior.len() == 0 {
        first
    } else {
        first + "\n## Prior attempts\n\n"@ + prior + "\n"@
    }
}

/// What an agent is told of a thesis.
pub fn write_thesis_context(thesis_title: &str, thesis_body: &str, prior_attempts: &str) -> (r:
    String)
    ensures
        r@ == thesis_context(thesis_title@, thesis_body@, prior_attempts@),
{
    let mut r = "# Thesis: ".to_owned();
    r.append(thesis_title);
    r.append("\n\n");
    r.append(thesis_body);
    r.append("\n");
    if prior_attempts.unicode_len() > 0 {
        r.append("\n## Prior attempts\n\n");
        r.append(prior_attempts);
        r.append("\n");
    }
    r
}

/// What an agent that proposes theses is told, behind a general text.
pub fn thesis_generation_prompt(base: &str, count: usize) -> (r: String)
    ensures
        r@ == base@ + "\n\nGenerate exactly "@ + text::decimal(count as nat)
            + " thesis proposals."@,
{
    let mut r = base.to_owned();
    r.append("\n\nGenerate exactly ");
    r.append(text::number(count as u64).as_str());
    r.append(" thesis proposals.");
    r
}

/// A command line that is taken apart: the words so far, the word that is read, and how.
pub struct Reading {
    pub words: Seq<Seq<char>>,
    pub current: Seq<char>,
    pub in_single_quote: bool,
    pub in_double_quote: bool,
    pub escape_next: bool,
}

/// The reading of a character. A backslash takes the next character as it is, except in single
/// quotes; quotes are dropped, and what stands in them is taken as it is; other blanks end a word.
pub open spec fn read_char(r: Reading, c: char) -> Reading {
    if r.escape_next {
        Reading { current: r.current.push(c), escape_next: false, ..r }
    } else if c == '\\' && !r.in_single_quote {
        Reading { escape_next: true, ..r }
    } else if c == '\'' && !r.in_double_quote {
        Reading { in_single_quote: !r.in_single_quote, ..r }
    } else if c == '"' && !r.in_single_quote {
        Reading { in_double_quote: !r.in_double_quote, ..r }
    } else if (c == ' ' || c == '\t') && !r.in_single_quote && !r.in_double_quote {
        if r.current.len() == 0 {
            r
        } else {
            Reading { words: r.words.push(r.current), current: Seq::empty(), ..r }
        }
    } else {
        Reading { current: r.current.push(c), ..r }
    }
}

/// The reading of a command line.
pub open spec fn read_line(s: Seq<char>) -> Reading
    decreases s.len(),
{
    if s.len() == 0 {
        Reading {
            words: Seq::empty(),
            current: Seq::empty(),
            in_single_quote: false,
            in_double_quote: false,
            escape_next: false,
        }
    } else {
        read_char(read_line(s.drop_last()), s.last())
    }
}

/// The words of a command line.
pub open spec fn words_in(s: Seq<char>) -> Seq<Seq<char>> {
    let r = read_line(s);
    if r.current.len() == 0 {
        r.words
    } else {
        r.words.push(r.current)
    }
}

/// The words of a command line.
pub fn shell_words(command: &str) -> (r: Vec<String>)
    ensures
        text::texts(r@) == words_in(command@),
{
    let v: Vec<char> = text::chars_of(command);
    let mut words: Vec<String> = Vec::new();
    let mut current = String::new();
    let mut in_single_quote = false;
    let mut in_double_quote = false;
    let mut escape_next = false;
    let mut i: usize = 0;
    proof {
        assert(v@.take(0).len() == 0);
        assert(text::texts(words@) =~= Seq::<Seq<char>>::empty());
        assert(current@ =~= Seq::<char>::empty());
    }
    while i < v.len()
        invariant
            i <= v.len(),
            read_line(v@.take(i as int)) == (Reading {
                words: text::texts(words@),
                current: current@,
                in_single_quote,
                in_double_quote,
                escape_next,
            }),
        decreases v.len() - i,
    {
        proof {
            assert(v@.take(i + 1).drop_last() =~= v@.take(i as int));
            assert(v@.take(i + 1).last() == v@[i as int]);
        }
        let c: char = v[i];
        if escape_next {
            current.push(c);
            escape_next = false;
        } else if c == '\\' && !in_single_quote {
            escape_next = true;
        } else if c == '\'' && !in_double_quote {
            in_single_quote = !in_single_quote;
        } else if c == '"' && !in_single_quote {
            in_double_quote = !in_double_quote;
        } else if (c == ' ' || c == '\t') && !in_single_quote && !in_double_quote {
            if current.as_str().unicode_len() > 0 {
                let ghost before = words@;
                words.push(current);
                proof {
                    text::lemma_texts_push(before, words@.last());
                }
                current = String::new();
                assert(current@ =~= Seq::<char>::empty());
            }
        } else {
            current.push(c);
        }
        i = i + 1;
    }
    assert(v@.take(i as int) =~= v@);
    if current.as_str().unicode_len() > 0 {
        let ghost before = words@;
        words.push(current);
        proof {
            text::lemma_texts_push(before, words@.last());
        }
    }
    words
}

/// The program that a command line starts and its arguments, or that there is none.
pub fn command_parts(agent_command: &str) -> (r: Result<Vec<String>, String>)
    ensures
        if words_in(agent_command@).len() == 0 {
            r matches Err(e) && e@ == "agent command is empty"@
        } else {
            r matches Ok(v) && text::texts(v@) == words_in(agent_command@)
        },
{
    let parts = shell_words(agent_command);
    assert(text::texts(parts@).len() == parts@.len());
    if parts.len() == 0 {
        return Err("agent command is empty".to_owned());
    }
    Ok(parts)
}

/// No word of a command line is empty.
pub proof fn words_are_not_empty(s: Seq<char>)
    ensures
        forall|i: int| 0 <= i < words_in(s).len() ==> (#[trigger] words_in(s)[i]).len() > 0,
{
    lemma_words_read(s);
}

proof fn lemma_words_read(s: Seq<char>)
    ensures
        forall|i: int| 0 <= i < read_line(s).words.len() ==> (#[trigger] read_line(s).words[i]).len()
            > 0,
    decreases s.len(),
{
    if s.len() > 0 {
        lemma_words_read(s.drop_last());
        let before = read_line(s.drop_last());
        let after = read_line(s);
        assert forall|i: int| 0 <= i < after.words.len() implies (
        #[trigger] after.words[i]).len() > 0 by {
            if i < before.words.len() {
                assert(after.words[i] == before.words[i]);
            }
        }
    }
}

/// What stands in single quotes is one word, whatever it holds but a single quote.
pub proof fn single_quotes_keep_all(s: Seq<char>)
    requires
        s.len() > 0,
        forall|i: int| 0 <= i < s.len() ==> #[trigger] s[i] != '\'',
    ensures
        words_in(seq!['\''] + s + seq!['\'']) == seq![s],
{
    let open = seq!['\''] + s;
    let whole = open + seq!['\''];
    lemma_in_quotes(s);
    assert(whole.drop_last() =~= open);
    assert(whole.last() == '\'');
    assert(words_in(whole) =~= seq![s]);
}

proof fn lemma_in_quotes(s: Seq<char>)
    requires
        forall|i: int| 0 <= i < s.len() ==> #[trigger] s[i] != '\'',
    ensures
        read_line(seq!['\''] + s) == (Reading {
            words: Seq::empty(),
            current: s,
            in_single_quote: true,
            in_double_quote: false,
            escape_next: false,
        }),
    decreases s.len(),
{
    let t = seq!['\''] + s;
    if s.len() == 0 {
        assert(t.drop_last() =~= Seq::<char>::empty());
        assert(t.last() == '\'');
        assert(s =~= Seq::<char>::empty());
        reveal_with_fuel(read_line, 2);
    } else {
        let rest = s.drop_last();
        assert forall|i: int| 0 <= i < rest.len() implies #[trigger] rest[i] != '\'' by {
            assert(rest[i] == s[i]);
        }
        lemma_in_quotes(rest);
        assert(t.drop_last() =~= seq!['\''] + rest);
        assert(t.last() == s.last());
        assert(s[s.len() - 1] != '\'');
        assert(rest.push(s.last()) =~= s);
    }
}

/// A character that parts words.
pub open spec fn is_blank(c: char) -> bool {
    c == ' ' || c == '\t'
}

/// No character of the text is a quote or a backslash.
pub open spec fn unquoted(s: Seq<char>) -> bool {
    forall|i: int| 0 <= i < s.len() ==> #[trigger] s[i] != '\'' && s[i] != '"' && s[i] != '\\'
}

/// Where the characters at the end of a text start that are no blanks.
pub open spec fn run_start(s: Seq<char>) -> int
    decreases s.len(),
{
    if s.len() == 0 || is_blank(s.last()) {
        s.len() as int
    } else {
        run_start(s.drop_last())
    }
}

/// The longest runs of characters that are no blanks, in order.
pub open spec fn runs(s: Seq<char>) -> Seq<Seq<char>>
    decreases s.len(),
{
    if s.len() == 0 {
        Seq::empty()
    } else if is_blank(s.last()) || !(0 <= run_start(s) < s.len()) {
        runs(s.drop_last())
    } else {
        runs(s.take(run_start(s))).push(s.skip(run_start(s)))
    }
}

proof fn lemma_run_start(s: Seq<char>)
    ensures
        0 <= run_start(s) <= s.len(),
        run_start(s) == s.len() <==> s.len() == 0 || is_blank(s.last()),
        forall|i: int| run_start(s) <= i < s.len() ==> !is_blank(#[trigger] s[i]),
    decreases s.len(),
{
    if s.len() > 0 && !is_blank(s.last()) {
        let t = s.drop_last();
        lemma_run_start(t);
        assert forall|i: int| run_start(s) <= i < s.len() implies !is_blank(#[trigger] s[i]) by {
            if i < t.len() {
                assert(t[i] == s[i]);
            }
        }
    }
}

proof fn lemma_unquoted_read(s: Seq<char>)
    requires
        unquoted(s),
    ensures
        read_line(s) == (Reading {
            words: runs(s.take(run_start(s))),
            current: s.skip(run_start(s)),
            in_single_quote: false,
            in_double_quote: false,
            escape_next: false,
        }),
    decreases s.len(),
{
    lemma_run_start(s);
    let k = run_start(s);
    if s.len() == 0 {
        assert(s.take(k) =~= Seq::<char>::empty());
        assert(s.skip(k) =~= Seq::<char>::empty());
    } else {
        let t = s.drop_last();
        let c = s.last();
        assert(s[s.len() - 1] == c);
        assert forall|i: int| 0 <= i < t.len() implies #[trigger] t[i] != '\'' && t[i] != '"' && t[i]
            != '\\' by {
            assert(t[i] == s[i]);
        }
        lemma_unquoted_read(t);
        lemma_run_start(t);
        let j = run_start(t);
        if is_blank(c) {
            assert(s.take(k) =~= s);
            assert(s.skip(k) =~= Seq::<char>::empty());
            if j == t.len() {
                assert(t.take(j) =~= t);
                assert(t.skip(j) =~= Seq::<char>::empty());
            } else {
                assert(t.skip(j).len() > 0);
            }
            assert(runs(s) == runs(t));
        } else {
            assert(s.take(k) =~= t.take(k));
            assert(s.skip(k) =~= t.skip(k).push(c));
        }
    }
}

/// Without quotes and backslashes the words of a command line are its longest runs of characters
/// that are no blanks, in order.
pub proof fn plain_words_are_runs(s: Seq<char>)
    requires
        unquoted(s),
    ensures
        words_in(s) == runs(s),
{
    lemma_unquoted_read(s);
    lemma_run_start(s);
    let k = run_start(s);
    if k == s.len() {
        assert(s.take(k) =~= s);
    }
}

/// A word that stands for itself: it is not empty and holds no blank, quote or backslash.
pub open spec fn plain_word(w: Seq<char>) -> bool {
    w.len() > 0 && unquoted(w) && forall|i: int| 0 <= i < w.len() ==> !is_blank(#[trigger] w[i])
}

proof fn lemma_run_of(a: Seq<char>, w: Seq<char>)
    requires
        a.len() == 0 || is_blank(a.last()),
        forall|i: int| 0 <= i < w.len() ==> !is_blank(#[trigger] w[i]),
    ensures
        run_start(a + w) == a.len(),
    decreases w.len(),
{
    if w.len() == 0 {
        assert(a + w =~= a);
    } else {
        let t = w.drop_last();
        assert forall|i: int| 0 <= i < t.len() implies !is_blank(#[trigger] t[i]) by {
            assert(t[i] == w[i]);
        }
        lemma_run_of(a, t);
        assert((a + w).drop_last() =~= a + t);
        assert((a + w).last() == w[w.len() - 1]);
    }
}

proof fn lemma_joined_runs(words: Seq<Seq<char>>)
    requires
        forall|i: int| 0 <= i < words.len() ==> plain_word(#[trigger] words[i]),
    ensures
        runs(text::joined(words, " "@)) == words,
        unquoted(text::joined(words, " "@)),
    decreases words.len(),
{
    reveal_strlit(" ");
    let s = text::joined(words, " "@);
    if words.len() == 0 {
        assert(words =~= Seq::<Seq<char>>::empty());
    } else {
        let w = words.last();
        let rest = words.drop_last();
        assert(plain_word(words[words.len() - 1]));
        assert forall|i: int| 0 <= i < rest.len() implies plain_word(#[trigger] rest[i]) by {
            assert(rest[i] == words[i]);
        }
        lemma_joined_runs(rest);
        let a = if words.len() == 1 {
            Seq::<char>::empty()
        } else {
            text::joined(rest, " "@) + " "@
        };
        assert(s =~= a + w);
        lemma_run_of(a, w);
        assert(s.last() == w[w.len() - 1]);
        assert(s.take(a.len() as int) =~= a);
        assert(s.skip(a.len() as int) =~= w);
        if words.len() > 1 {
            assert(a.drop_last() =~= text::joined(rest, " "@));
            assert(a.last() == ' ');
        }
        assert(runs(a) == rest);
        assert(rest.push(w) =~= words);
        assert forall|i: int| 0 <= i < s.len() implies #[trigger] s[i] != '\'' && s[i] != '"' && s[i]
            != '\\' by {
            if i < a.len() {
                if i < a.len() - 1 {
                    assert(text::joined(rest, " "@)[i] == s[i]);
                }
            } else {
                assert(w[i - a.len()] == s[i]);
            }
        }
    }
}

proof fn lemma_runs_are_words(s: Seq<char>)
    requires
        unquoted(s),
    ensures
        forall|i: int| 0 <= i < runs(s).len() ==> plain_word(#[trigger] runs(s)[i]),
    decreases s.len(),
{
    if s.len() > 0 {
        lemma_run_start(s);
        let k = run_start(s);
        let t = if is_blank(s.last()) {
            s.drop_last()
        } else {
            s.take(k)
        };
        assert forall|i: int| 0 <= i < t.len() implies #[trigger] t[i] != '\'' && t[i] != '"' && t[i]
            != '\\' by {
            assert(t[i] == s[i]);
        }
        lemma_runs_are_words(t);
        if !is_blank(s.last()) {
            let w = s.skip(k);
            assert forall|i: int| 0 <= i < w.len() implies #[trigger] w[i] != '\'' && w[i] != '"'
                && w[i] != '\\' && !is_blank(w[i]) by {
                assert(w[i] == s[k + i]);
            }
            assert(plain_word(w));
            assert forall|i: int| 0 <= i < runs(s).len() implies plain_word(
                #[trigger] runs(s)[i],
            ) by {
                if i < runs(t).len() {
                    assert(runs(s)[i] == runs(t)[i]);
                }
            }
        }
    }
}

/// Words that stand for themselves, joined by blanks, read back as these words.
pub proof fn joined_words_read_back(words: Seq<Seq<char>>)
    requires
        forall|i: int| 0 <= i < words.len() ==> plain_word(#[trigger] words[i]),
    ensures
        words_in(text::joined(words, " "@)) == words,
{
    lemma_joined_runs(words);
    plain_words_are_runs(text::joined(words, " "@));
}

/// The words of a command line without quotes and backslashes, joined by blanks, read back as the
/// same words.
pub proof fn plain_words_read_again(s: Seq<char>)
    requires
        unquoted(s),
    ensures
        words_in(text::joined(words_in(s), " "@)) == words_in(s),
{
    plain_words_are_runs(s);
    lemma_runs_are_words(s);
    joined_words_read_back(words_in(s));
}

} // verus!
