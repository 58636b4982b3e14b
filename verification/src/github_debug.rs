//! What is told of requests to the host where one asks for it.
use crate::json;
use crate::sort;
use crate::sort::Ranked;
use crate::text;
use crate::text_set;
use vstd::prelude::*;
use vstd::string::*;

verus! {

/// The variable that asks for it.
pub const GITHUB_DEBUG_ENV_VAR: &'static str = "POLYRESEARCH_GITHUB_DEBUG";

/// Whether one asks for it, where that was settled.
#[derive(Clone, Copy, Debug, PartialEq, Eq, Structural)]
pub enum DebugState {
    Unset,
    Disabled,
    Enabled,
}

/// The text says yes.
pub open spec fn truthy(value: Seq<char>) -> bool {
    let v = text::lower(text::trimmed(value));
    v == "1"@ || v == "true"@ || v == "yes"@ || v == "on"@ || v == "api"@
}

/// Whether a text says yes.
pub fn parse_truthy_flag(value: &str) -> (r: bool)
    ensures
        r == truthy(value@),
{
    let v = text::to_ascii_lowercase(text::trim(value));
    text::same(v.as_str(), "1") || text::same(v.as_str(), "true") || text::same(v.as_str(), "yes")
        || text::same(v.as_str(), "on") || text::same(v.as_str(), "api")
}

/// The variable says yes.
pub open spec fn env_asks(env_value: Option<&str>) -> bool {
    env_value matches Some(v) && truthy(v@)
}

fn env_flag_enabled(env_value: Option<&str>) -> (r: bool)
    ensures
        r == env_asks(env_value),
{
    match env_value {
        Some(v) => parse_truthy_flag(v),
        None => false,
    }
}

/// Settles whether one asks for it: on the command line or by the variable.
pub fn init(cli_enabled: bool, env_value: Option<&str>) -> (r: DebugState)
    ensures
        r == (if cli_enabled || env_asks(env_value) {
            DebugState::Enabled
        } else {
            DebugState::Disabled
        }),
{
    if cli_enabled || env_flag_enabled(env_value) {
        DebugState::Enabled
    } else {
        DebugState::Disabled
    }
}

/// Whether one asks for it: as was settled, else by the variable.
pub fn enabled(state: DebugState, env_value: Option<&str>) -> (r: bool)
    ensures
        r == (match state {
            DebugState::Enabled => true,
            DebugState::Disabled => false,
            DebugState::Unset => env_asks(env_value),
        }),
{
    match state {
        DebugState::Enabled => true,
        DebugState::Disabled => false,
        DebugState::Unset => env_flag_enabled(env_value),
    }
}

/// A line of a log that is worth telling, in small letters.
pub open spec fn is_highlight(line: Seq<char>) -> bool {
    ||| text::holds(line, "request to https://api.github.com"@)
    ||| text::begins(line, "> get "@)
    ||| text::begins(line, "> post "@)
    ||| text::begins(line, "> put "@)
    ||| text::begins(line, "> patch "@)
    ||| text::begins(line, "< http/"@)
    ||| text::holds(line, "x-ratelimit-"@)
    ||| text::holds(line, "retry-after:"@)
    ||| text::holds(line, "secondary rate limit"@)
    ||| text::holds(line, "abuse detection"@)
    ||| text::holds(line, "please wait a few minutes before you try again"@)
    ||| text::holds(line, "x-github-request-id:"@)
    ||| text::holds(line, "graphql"@)
}

fn tells_something(line: &str) -> (r: bool)
    ensures
        r == is_highlight(line@),
{
    text::contains(line, "request to https://api.github.com") || text::starts_with(line, "> get ")
        || text::starts_with(line, "> post ") || text::starts_with(line, "> put ")
        || text::starts_with(line, "> patch ") || text::starts_with(line, "< http/")
        || text::contains(line, "x-ratelimit-") || text::contains(line, "retry-after:")
        || text::contains(line, "secondary rate limit") || text::contains(line, "abuse detection")
        || text::contains(line, "please wait a few minutes before you try again")
        || text::contains(line, "x-github-request-id:") || text::contains(line, "graphql")
}

/// The trimmed lines of a log that are worth telling.
pub open spec fn highlights(lines: Seq<Seq<char>>) -> Seq<Seq<char>>
    decreases lines.len(),
{
    if lines.len() == 0 {
        Seq::empty()
    } else {
        let rest = highlights(lines.drop_last());
        let line = text::trimmed(lines.last());
        if line.len() > 0 && is_highlight(text::lower(line)) {
            rest.push(line)
        } else {
            rest
        }
    }
}

/// The trimmed lines of a log that are worth telling.
pub fn collect_debug_highlights(stderr: &str) -> (r: Vec<String>)
    ensures
        text::texts(r@) == highlights(text::lines_of(stderr@)),
{
    let lines = text::lines(stderr);
    let ghost all = text::lines_of(stderr@);
    let mut r: Vec<String> = Vec::new();
    let mut i: usize = 0;
    proof {
        assert(all.take(0).len() == 0);
        assert(text::texts(r@) =~= Seq::<Seq<char>>::empty());
    }
    while i < lines.len()
        invariant
            i <= lines.len(),
            text::texts(lines@) == all,
            text::texts(r@) == highlights(all.take(i as int)),
        decreases lines.len() - i,
    {
        proof {
            assert(all.take(i + 1).drop_last() =~= all.take(i as int));
            assert(all.take(i + 1).last() == all[i as int]);
            assert(all[i as int] == lines@[i as int]@);
        }
        let line = text::trim(lines[i].as_str());
        if line.unicode_len() > 0 {
            let lowered = text::to_ascii_lowercase(line);
            if tells_something(lowered.as_str()) {
                let ghost before = r@;
                r.push(line.to_owned());
                proof {
                    text::lemma_texts_push(before, r@.last());
                }
            }
        }
        i = i + 1;
    }
    assert(all.take(i as int) =~= all);
    r
}

/// A command as it is told.
pub fn render_command(parts: &Vec<String>) -> (r: String)
    ensures
        r@ == text::joined(text::texts(parts@), " "@),
{
    text::join(parts, " ")
}

/// Whether a command asks for the host's limits.
pub fn is_rate_limit_command(args: &Vec<String>) -> (r: bool)
    ensures
        r == text::texts(args@).contains("rate_limit"@),
{
    text::is_listed(args, "rate_limit")
}

/// One of the host's limits.
#[derive(Debug)]
pub struct Bucket {
    pub name: String,
    pub limit: u64,
    pub remaining: u64,
    pub used: u64,
}

/// A line of a list that is put in order.
#[derive(Debug)]
pub struct Line {
    pub text: String,
}

impl Ranked for Line {
    open spec fn after(self, other: Self) -> bool {
        text_set::precedes(other.text@, self.text@)
    }

    proof fn one_way(a: Self, b: Self) {
        text_set::lemma_precedes_total(a.text@, b.text@);
    }

    proof fn carries_over(a: Self, b: Self, c: Self) {
        text_set::lemma_precedes_total(a.text@, b.text@);
        text_set::lemma_precedes_total(b.text@, c.text@);
        text_set::lemma_precedes_total(a.text@, c.text@);
        if text_set::precedes(c.text@, a.text@) {
            if text_set::precedes(a.text@, b.text@) {
                text_set::lemma_precedes_transitive(c.text@, a.text@, b.text@);
            }
        }
    }

    fn is_after(&self, other: &Self) -> (r: bool) {
        text_set::before(other.text.as_str(), self.text.as_str())
    }
}

/// A limit as it is told.
pub open spec fn told_bucket(b: Bucket) -> Seq<char> {
    b.name@ + "="@ + text::decimal(b.remaining as nat) + "/"@ + text::decimal(b.limit as nat)
        + " used="@ + text::decimal(b.used as nat)
}

/// The texts of lines.
pub open spec fn line_texts(lines: Seq<Line>) -> Seq<Seq<char>> {
    lines.map_values(|l: Line| l.text@)
}

/// The summary joins the texts in their order.
pub open spec fn sums_up(texts: Seq<Seq<char>>, summary: Seq<char>) -> bool {
    exists|lines: Seq<Line>|
        line_texts(lines) == texts && summary == #[trigger] text::joined(
            line_texts(sort::sorted(lines)),
            ", "@,
        )
}

/// Limits as they are told.
pub open spec fn told(buckets: Seq<Bucket>) -> Seq<Seq<char>> {
    buckets.map_values(|b: Bucket| told_bucket(b))
}

/// A limit of which all numbers are known.
pub open spec fn whole_bucket(limit: Option<u64>, remaining: Option<u64>, used: Option<u64>) -> bool {
    limit is Some && remaining is Some && used is Some
}

/// A limit, where all of its numbers are known.
pub fn make_bucket(
    name: String,
    limit: Option<u64>,
    remaining: Option<u64>,
    used: Option<u64>,
) -> (r: Option<Bucket>)
    ensures
        if whole_bucket(limit, remaining, used) {
            r == Some(
                Bucket {
                    name,
                    limit: limit->Some_0,
                    remaining: remaining->Some_0,
                    used: used->Some_0,
                },
            )
        } else {
            r is None
        },
{
    match (limit, remaining, used) {
        (Some(limit), Some(remaining), Some(used)) => Some(Bucket { name, limit, remaining, used }),
        _ => None,
    }
}

/// Limits as they are told, where a command asked for them.
pub fn summarize_rate_limit(args: &Vec<String>, buckets: &Vec<Bucket>) -> (r: Option<String>)
    ensures
        if text::texts(args@).contains("rate_limit"@) {
            r matches Some(s) && sums_up(told(buckets@), s@)
        } else {
            r is None
        },
{
    if !is_rate_limit_command(args) {
        return None;
    }
    let ghost wanted = told(buckets@);
    let mut lines: Vec<Line> = Vec::new();
    let mut i: usize = 0;
    assert(line_texts(lines@) =~= wanted.take(0));
    while i < buckets.len()
        invariant
            i <= buckets.len(),
            wanted == told(buckets@),
            line_texts(lines@) == wanted.take(i as int),
        decreases buckets.len() - i,
    {
        let b = &buckets[i];
        let mut t = b.name.clone();
        t.append("=");
        t.append(text::number(b.remaining).as_str());
        t.append("/");
        t.append(text::number(b.limit).as_str());
        t.append(" used=");
        t.append(text::number(b.used).as_str());
        let ghost before = lines@;
        lines.push(Line { text: t });
        proof {
            assert(line_texts(lines@) =~= line_texts(before).push(t@));
            assert(wanted.take(i + 1) =~= wanted.take(i as int).push(wanted[i as int]));
        }
        i = i + 1;
    }
    assert(wanted.take(i as int) =~= wanted);
    let ghost gathered = lines@;
    let ordered = sort::sort(lines);
    let ghost texts = line_texts(ordered@);
    let mut parts: Vec<String> = Vec::new();
    let mut k: usize = 0;
    assert(text::texts(parts@) =~= texts.take(0));
    while k < ordered.len()
        invariant
            k <= ordered.len(),
            texts == line_texts(ordered@),
            text::texts(parts@) == texts.take(k as int),
        decreases ordered.len() - k,
    {
        let ghost before = parts@;
        parts.push(ordered[k].text.clone());
        proof {
            text::lemma_texts_push(before, parts@.last());
            assert(texts.take(k + 1) =~= texts.take(k as int).push(texts[k as int]));
        }
        k = k + 1;
    }
    assert(texts.take(k as int) =~= texts);
    let summary = text::join(&parts, ", ");
    assert(sums_up(told(buckets@), summary@)) by {
        assert(line_texts(gathered) == wanted);
        assert(summary@ == text::joined(line_texts(sort::sorted(gathered)), ", "@));
    }
    Some(summary)
}

/// The limits with these names as they are told, by what the host answered; one of which a number
/// is missing is not told.
pub open spec fn told_of(stdout: Seq<u8>, names: Seq<Seq<char>>) -> Seq<Seq<char>>
    decreases names.len(),
{
    if names.len() == 0 {
        Seq::empty()
    } else {
        let rest = told_of(stdout, names.drop_last());
        let name = names.last();
        match (
            json::member_number(stdout, "resources"@, name, "limit"@),
            json::member_number(stdout, "resources"@, name, "remaining"@),
            json::member_number(stdout, "resources"@, name, "used"@),
        ) {
            (Some(limit), Some(remaining), Some(used)) => rest.push(
                name + "="@ + text::decimal(remaining as nat) + "/"@ + text::decimal(limit as nat)
                    + " used="@ + text::decimal(used as nat),
            ),
            _ => rest,
        }
    }
}

/// The host's limits as they are told, by what it answered to a command that asked for them.
pub fn summarize_rate_limit_stdout(args: &Vec<String>, stdout: &Vec<u8>) -> (r: Option<String>)
    ensures
        if text::texts(args@).contains("rate_limit"@) {
            match json::member_names(stdout@, "resources"@) {
                Some(names) => r matches Some(s) && sums_up(told_of(stdout@, names), s@),
                None => r is None,
            }
        } else {
            r is None
        },
{
    if !is_rate_limit_command(args) {
        return None;
    }
    let names: Vec<String> = match json::names_under(stdout, "resources") {
        Some(names) => names,
        None => {
            return None;
        },
    };
    let ghost all = text::texts(names@);
    let mut buckets: Vec<Bucket> = Vec::new();
    let mut i: usize = 0;
    assert(all.take(0).len() == 0);
    assert(told(buckets@) =~= Seq::<Seq<char>>::empty());
    while i < names.len()
        invariant
            i <= names.len(),
            all == text::texts(names@),
            told(buckets@) == told_of(stdout@, all.take(i as int)),
        decreases names.len() - i,
    {
        let ghost before = buckets@;
        proof {
            assert(all.take(i + 1).drop_last() =~= all.take(i as int));
            assert(all.take(i + 1).last() == names@[i as int]@);
        }
        let name = names[i].as_str();
        let limit = json::number_under(stdout, "resources", name, "limit");
        let remaining = json::number_under(stdout, "resources", name, "remaining");
        let used = json::number_under(stdout, "resources", name, "used");
        if let Some(bucket) = make_bucket(names[i].clone(), limit, remaining, used) {
            buckets.push(bucket);
            assert(told(buckets@) =~= told(before).push(told_bucket(bucket)));
        }
        i = i + 1;
    }
    assert(all.take(i as int) =~= all);
    summarize_rate_limit(args, &buckets)
}

} // verus!
