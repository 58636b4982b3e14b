//! What the commands decide.
pub mod admin;
pub mod annotate;
pub mod attempt;
pub mod audit;
pub mod batch_claim;
pub mod bootstrap;
pub mod claim;
pub mod commit;
pub mod contribute;
pub mod decide;
pub mod duties;
pub mod generate;
pub mod guards;
pub mod init;
pub mod lead;
pub mod pace;
pub mod policy_check;
pub mod prune;
pub mod release;
pub mod resume;
pub mod review;
pub mod review_claim;
pub mod status;
pub mod submit;
pub mod sync;

use crate::config;
use crate::config::NodeConfig;
use crate::cli::NodeOverrides;
use crate::paths;
use crate::state;
use crate::state::{RepositoryState, ThesisState};
use crate::text;
use vstd::prelude::*;
use vstd::string::*;

verus! {

/// The program ends with a code and a message.
#[derive(Debug)]
pub struct ProcessExit {
    pub code: i32,
    pub message: String,
}

impl ProcessExit {
    /// The message.
    pub fn text(&self) -> (r: String)
        ensures
            r@ == self.message@,
    {
        self.message.clone()
    }
}

/// Ends the program with a code and a message.
pub fn exit_with(code: i32, message: &str) -> (r: Result<(), ProcessExit>)
    ensures
        r matches Err(e) && e.code == code && e.message@ == message@,
{
    Err(ProcessExit { code, message: message.to_owned() })
}

/// Where a node works at a thesis.
#[derive(Debug)]
pub struct ThesisWorkspace {
    pub branch: String,
    pub worktree_path: String,
}

/// A letter or digit that a slug keeps.
pub open spec fn is_slug_char(c: char) -> bool {
    ('0' <= c <= '9') || ('A' <= c <= 'Z') || ('a' <= c <= 'z')
}

/// Letters and digits in lower case, with one dash for each run of anything else.
pub open spec fn dashed(s: Seq<char>) -> Seq<char>
    decreases s.len(),
{
    if s.len() == 0 {
        s
    } else {
        let rest = dashed(s.drop_last());
        if is_slug_char(s.last()) {
            rest.push(text::lower_char(s.last()))
        } else if s.len() > 1 && !is_slug_char(s[s.len() - 2]) {
            rest
        } else {
            rest.push('-')
        }
    }
}

/// A text without dashes at its start.
pub open spec fn without_leading_dashes(s: Seq<char>) -> Seq<char>
    decreases s.len(),
{
    if s.len() > 0 && s[0] == '-' {
        without_leading_dashes(s.drop_first())
    } else {
        s
    }
}

/// The form of a title that stands in branches and paths.
pub open spec fn slug_of(s: Seq<char>) -> Seq<char> {
    text::without_trailing(without_leading_dashes(dashed(s)), '-')
}

/// The form of a title that stands in branches and paths.
pub fn slugify(input: &str) -> (r: String)
    ensures
        r@ == slug_of(input@),
{
    let v: Vec<char> = text::chars_of(input);
    let mut output = String::new();
    let mut last_was_dash = false;
    let mut i: usize = 0;
    assert(v@.take(0) =~= Seq::<char>::empty());
    assert(output@ =~= Seq::<char>::empty());
    while i < v.len()
        invariant
            i <= v.len(),
            v@ == input@,
            output@ == dashed(v@.take(i as int)),
            last_was_dash == (i > 0 && !is_slug_char(v@[i - 1])),
        decreases v.len() - i,
    {
        let c: char = v[i];
        proof {
            let t = v@.take(i + 1);
            assert(t.drop_last() =~= v@.take(i as int));
            assert(t.last() == c);
            if i > 0 {
                assert(t[t.len() - 2] == v@[i - 1]);
            }
        }
        if c >= '0' && c <= '9' || c >= 'a' && c <= 'z' {
            output.push(c);
            last_was_dash = false;
        } else if c >= 'A' && c <= 'Z' {
            output.push((c as u8 + 32) as char);
            last_was_dash = false;
        } else {
            if !last_was_dash {
                output.push('-');
            }
            last_was_dash = true;
        }
        i = i + 1;
    }
    assert(v@.take(i as int) =~= v@);
    let w: Vec<char> = text::chars_of(output.as_str());
    let n: usize = w.len();
    let mut a: usize = 0;
    assert(output@.skip(0) =~= output@);
    while a < n && w[a] == '-'
        invariant
            n == w.len(),
            w@ == output@,
            a <= n,
            without_leading_dashes(output@) == without_leading_dashes(output@.skip(a as int)),
        decreases n - a,
    {
        assert(output@.skip(a as int).drop_first() =~= output@.skip(a + 1));
        a = a + 1;
    }
    let rest = output.as_str().substring_char(a, n);
    assert(rest@ =~= output@.skip(a as int));
    text::trim_end_char(rest, '-').to_owned()
}

/// A character of a slug.
pub open spec fn in_slug(c: char) -> bool {
    ('0' <= c <= '9') || ('a' <= c <= 'z') || c == '-'
}

proof fn lemma_dashed(s: Seq<char>)
    ensures
        forall|i: int| 0 <= i < dashed(s).len() ==> in_slug(#[trigger] dashed(s)[i]),
        forall|i: int|
            0 < i < dashed(s).len() && #[trigger] dashed(s)[i] == '-' ==> dashed(s)[i - 1] != '-',
        s.len() > 0 ==> dashed(s).len() > 0 && (dashed(s).last() == '-' <==> !is_slug_char(
            s.last(),
        )),
    decreases s.len(),
{
    if s.len() > 0 {
        let rest = s.drop_last();
        lemma_dashed(rest);
        let d = dashed(rest);
        let r = dashed(s);
        if rest.len() > 0 {
            assert(rest.last() == s[s.len() - 2]);
        }
        assert forall|i: int| 0 <= i < r.len() implies in_slug(#[trigger] r[i]) by {
            if i < d.len() {
                assert(r[i] == d[i]);
            }
        }
        assert forall|i: int| 0 < i < r.len() && #[trigger] r[i] == '-' implies r[i - 1]
            != '-' by {
            if i < d.len() {
                assert(r[i] == d[i]);
                assert(r[i - 1] == d[i - 1]);
            } else {
                assert(r[i - 1] == d.last());
            }
        }
    }
}

proof fn lemma_without_leading(s: Seq<char>)
    ensures
        without_leading_dashes(s).len() <= s.len(),
        without_leading_dashes(s) == s.skip(s.len() - without_leading_dashes(s).len()),
        without_leading_dashes(s).len() > 0 ==> without_leading_dashes(s)[0] != '-',
    decreases s.len(),
{
    if s.len() > 0 && s[0] == '-' {
        lemma_without_leading(s.drop_first());
        let r = without_leading_dashes(s);
        assert(s.drop_first().skip(s.len() - 1 - r.len()) =~= s.skip(s.len() - r.len()));
    } else {
        assert(s.skip(0) =~= s);
    }
}

proof fn lemma_without_trailing(s: Seq<char>)
    ensures
        text::without_trailing(s, '-').len() <= s.len(),
        text::without_trailing(s, '-') == s.take(text::without_trailing(s, '-').len() as int),
        text::without_trailing(s, '-').len() > 0 ==> text::without_trailing(s, '-').last() != '-',
    decreases s.len(),
{
    if s.len() > 0 && s.last() == '-' {
        lemma_without_trailing(s.drop_last());
        let r = text::without_trailing(s, '-');
        assert(s.drop_last().take(r.len() as int) =~= s.take(r.len() as int));
    } else {
        assert(s.take(s.len() as int) =~= s);
    }
}

/// A slug holds small letters, digits and single dashes, with no dash at its ends.
pub proof fn slug_is_plain(s: Seq<char>)
    ensures
        forall|i: int| 0 <= i < slug_of(s).len() ==> in_slug(#[trigger] slug_of(s)[i]),
        forall|i: int|
            0 < i < slug_of(s).len() && #[trigger] slug_of(s)[i] == '-' ==> slug_of(s)[i - 1] != '-',
        slug_of(s).len() > 0 ==> slug_of(s)[0] != '-' && slug_of(s).last() != '-',
{
    let d = dashed(s);
    let m = without_leading_dashes(d);
    let r = slug_of(s);
    lemma_dashed(s);
    lemma_without_leading(d);
    lemma_without_trailing(m);
    let k = d.len() - m.len();
    assert forall|i: int| 0 <= i < r.len() implies in_slug(#[trigger] r[i]) by {
        assert(r[i] == m[i]);
        assert(m[i] == d[k + i]);
    }
    assert forall|i: int| 0 < i < r.len() && #[trigger] r[i] == '-' implies r[i - 1] != '-' by {
        assert(r[i] == m[i] && m[i] == d[k + i]);
        assert(r[i - 1] == m[i - 1] && m[i - 1] == d[k + i - 1]);
    }
    if r.len() > 0 {
        assert(r[0] == m[0]);
    }
}

/// The letters and digits of a text, in lower case.
pub open spec fn letters_of(s: Seq<char>) -> Seq<char>
    decreases s.len(),
{
    if s.len() == 0 {
        s
    } else if is_slug_char(s.last()) {
        letters_of(s.drop_last()).push(text::lower_char(s.last()))
    } else {
        letters_of(s.drop_last())
    }
}

/// A text without its dashes.
pub open spec fn without_dashes(s: Seq<char>) -> Seq<char>
    decreases s.len(),
{
    if s.len() == 0 {
        s
    } else if s.last() == '-' {
        without_dashes(s.drop_last())
    } else {
        without_dashes(s.drop_last()).push(s.last())
    }
}

proof fn lemma_letters_of_dashed(s: Seq<char>)
    ensures
        without_dashes(dashed(s)) == letters_of(s),
    decreases s.len(),
{
    if s.len() > 0 {
        lemma_letters_of_dashed(s.drop_last());
        let rest = dashed(s.drop_last());
        let c = dashed(s).last();
        if dashed(s) != rest {
            assert(dashed(s).drop_last() =~= rest);
        }
    }
}

proof fn lemma_first_dash(s: Seq<char>)
    requires
        s.len() > 0,
        s[0] == '-',
    ensures
        without_dashes(s.drop_first()) == without_dashes(s),
    decreases s.len(),
{
    if s.len() == 1 {
        assert(s.drop_first() =~= s.drop_last());
    } else {
        lemma_first_dash(s.drop_last());
        assert(s.drop_first().drop_last() =~= s.drop_last().drop_first());
        assert(s.drop_first().last() == s.last());
    }
}

proof fn lemma_trimmed_dashes(s: Seq<char>)
    ensures
        without_dashes(without_leading_dashes(s)) == without_dashes(s),
        without_dashes(text::without_trailing(s, '-')) == without_dashes(s),
    decreases s.len(),
{
    if s.len() > 0 && s[0] == '-' {
        lemma_trimmed_dashes(s.drop_first());
        lemma_first_dash(s);
    }
    if s.len() > 0 && s.last() == '-' {
        lemma_trimmed_dashes(s.drop_last());
    }
}

/// A slug keeps the letters and digits of the title, in lower case and in order, and nothing else
/// but dashes.
pub proof fn slug_keeps_letters(s: Seq<char>)
    ensures
        without_dashes(slug_of(s)) == letters_of(s),
{
    lemma_letters_of_dashed(s);
    lemma_trimmed_dashes(dashed(s));
    lemma_trimmed_dashes(without_leading_dashes(dashed(s)));
}

proof fn lemma_plain_is_dashed(r: Seq<char>)
    requires
        forall|i: int| 0 <= i < r.len() ==> in_slug(#[trigger] r[i]),
        forall|i: int| 0 < i < r.len() && #[trigger] r[i] == '-' ==> r[i - 1] != '-',
    ensures
        dashed(r) == r,
    decreases r.len(),
{
    if r.len() > 0 {
        let t = r.drop_last();
        assert forall|i: int| 0 <= i < t.len() implies in_slug(#[trigger] t[i]) by {
            assert(t[i] == r[i]);
        }
        assert forall|i: int| 0 < i < t.len() && #[trigger] t[i] == '-' implies t[i - 1]
            != '-' by {
            assert(t[i] == r[i] && t[i - 1] == r[i - 1]);
        }
        lemma_plain_is_dashed(t);
        assert(in_slug(r[r.len() - 1]));
        if r.len() > 1 {
            assert(in_slug(r[r.len() - 2]));
        }
        assert(dashed(r) =~= t.push(r.last()));
    }
}

/// The slug of a slug is the slug itself.
pub proof fn slug_of_a_slug(s: Seq<char>)
    ensures
        slug_of(slug_of(s)) == slug_of(s),
{
    slug_is_plain(s);
    lemma_plain_is_dashed(slug_of(s));
}

/// The directory in which a node works at a thesis.
pub open spec fn worktree_of(repo_root: Seq<char>, issue_number: u64, title: Seq<char>) -> Seq<char> {
    paths::joined(
        paths::joined(repo_root, ".worktrees"@),
        text::decimal(issue_number as nat) + "-"@ + slug_of(title),
    )
}

/// The branch on which a node works at a thesis.
pub open spec fn branch_of(issue_number: u64, title: Seq<char>) -> Seq<char> {
    "thesis/"@ + text::decimal(issue_number as nat) + "-"@ + slug_of(title)
}

/// The directory in which a node works at a thesis.
pub fn thesis_worktree_path(repo_root: &str, issue_number: u64, title: &str) -> (r: String)
    ensures
        r@ == worktree_of(repo_root@, issue_number, title@),
{
    let mut name = text::number(issue_number);
    name.append("-");
    name.append(slugify(title).as_str());
    paths::join(paths::join(repo_root, ".worktrees").as_str(), name.as_str())
}

/// The branch on which a node works at a thesis.
pub fn thesis_branch(issue_number: u64, title: &str) -> (r: String)
    ensures
        r@ == branch_of(issue_number, title@),
{
    let mut branch = "thesis/".to_owned();
    branch.append(text::number(issue_number).as_str());
    branch.append("-");
    branch.append(slugify(title).as_str());
    branch
}

/// The branch of a thesis belongs to it.
pub proof fn branch_belongs_to_thesis(issue_number: u64, title: Seq<char>)
    ensures
        state::thesis_of_branch(branch_of(issue_number, title)) == Some(issue_number),
{
    let start = "thesis/"@ + text::decimal(issue_number as nat) + "-"@;
    assert(branch_of(issue_number, title).take(start.len() as int) =~= start);
    crate::discussion::lemma_branch_of_thesis(branch_of(issue_number, title), issue_number);
}

/// Where a node is to work at a thesis, or why it cannot: the directory or the branch is there
/// already.
pub fn create_thesis_worktree(
    repo_root: &str,
    issue_number: u64,
    title: &str,
    path_exists: bool,
    branch_exists: bool,
) -> (r: Result<ThesisWorkspace, String>)
    ensures
        ({
            let path = worktree_of(repo_root@, issue_number, title@);
            let branch = branch_of(issue_number, title@);
            if path_exists {
                r matches Err(e) && e@ == "worktree path `"@ + path
                    + "` already exists; remove it with `git worktree remove` before reclaiming thesis #"@
                    + text::decimal(issue_number as nat)
            } else if branch_exists {
                r matches Err(e) && e@ == "branch `"@ + branch
                    + "` already exists; delete or rename it before reclaiming thesis #"@
                    + text::decimal(issue_number as nat)
            } else {
                r matches Ok(w) && w.branch@ == branch && w.worktree_path@ == path
            }
        }),
{
    let worktree_path = thesis_worktree_path(repo_root, issue_number, title);
    let branch = thesis_branch(issue_number, title);
    if path_exists {
        let mut e = "worktree path `".to_owned();
        e.append(worktree_path.as_str());
        e.append(
            "` already exists; remove it with `git worktree remove` before reclaiming thesis #",
        );
        e.append(text::number(issue_number).as_str());
        return Err(e);
    }
    if branch_exists {
        let mut e = "branch `".to_owned();
        e.append(branch.as_str());
        e.append("` already exists; delete or rename it before reclaiming thesis #");
        e.append(text::number(issue_number).as_str());
        return Err(e);
    }
    Ok(ThesisWorkspace { branch, worktree_path })
}

/// The name of the machine: what the environment says, else what the command `hostname` printed,
/// else `local`.
pub fn resolve_hostname(env_value: Option<&str>, command_output: Option<&str>) -> (r: String)
    ensures
        r@ == (match env_value {
            Some(v) if text::trimmed(v@).len() > 0 => text::trimmed(v@),
            _ => match command_output {
                Some(o) => text::trimmed(o@),
                None => "local"@,
            },
        }),
{
    if let Some(v) = env_value {
        let t = text::trim(v);
        if t.unicode_len() > 0 {
            return t.to_owned();
        }
    }
    match command_output {
        Some(o) => text::trim(o).to_owned(),
        None => "local".to_owned(),
    }
}

/// Four hexadecimal digits.
pub open spec fn hex_four(n: u16) -> Seq<char> {
    seq![
        crate::json::hex_digit((n / 4096) as nat),
        crate::json::hex_digit((n / 256 % 16) as nat),
        crate::json::hex_digit((n / 16 % 16) as nat),
        crate::json::hex_digit((n % 16) as nat),
    ]
}

fn hex(n: u16) -> (r: char)
    requires
        n < 16,
    ensures
        r == crate::json::hex_digit(n as nat),
{
    if n < 10 {
        (48 + n as u8) as char
    } else {
        (87 + n as u8) as char
    }
}

/// The name of a machine with a number behind it, so that two nodes on one machine differ.
pub fn machine_id(hostname: &str, suffix: u16) -> (r: String)
    ensures
        r@ == hostname@ + "-"@ + hex_four(suffix),
{
    let mut r = hostname.to_owned();
    r.append("-");
    let ghost start = r@;
    r.push(hex(suffix / 4096));
    r.push(hex(suffix / 256 % 16));
    r.push(hex(suffix / 16 % 16));
    r.push(hex(suffix % 16));
    assert(r@ =~= start + hex_four(suffix));
    r
}

/// A name for this machine: its host name and a random number, which is drawn anew each time.
pub fn default_machine_id(hostname: &str) -> (r: String)
    ensures
        exists|suffix: u16| r@ == hostname@ + "-"@ + #[trigger] hex_four(suffix),
{
    let suffix: u64 = crate::github::random_between(0, 65535);
    machine_id(hostname, suffix as u16)
}

/// The name of a node: the login and the machine.
pub fn node_name(login: &str, machine: &str) -> (r: String)
    ensures
        r@ == login@ + "/"@ + machine@,
{
    let mut r = login.to_owned();
    r.append("/");
    r.append(machine);
    r
}

/// The configuration to save for a node: the one that is there, else a new one, under the name and
/// with what the command line gives.
pub fn write_node_config(
    existing: Option<NodeConfig>,
    node: &str,
    overrides: &NodeOverrides,
    program: &str,
) -> (r: NodeConfig)
    ensures
        r.node_id@ == node@,
        r.capacity == (match (overrides.capacity, existing) {
            (Some(c), _) => config::usable_capacity(c),
            (None, Some(e)) => e.capacity,
            (None, None) => config::DEFAULT_CAPACITY,
        }),
        r.api_budget == (match (overrides.api_budget, existing) {
            (Some(c), _) => config::usable_budget(c),
            (None, Some(e)) => e.api_budget,
            (None, None) => config::DEFAULT_API_BUDGET,
        }),
        r.request_delay_ms == (match (overrides.request_delay, existing) {
            (Some(c), _) => config::usable_delay(c),
            (None, Some(e)) => e.request_delay_ms,
            (None, None) => config::DEFAULT_REQUEST_DELAY_MS,
        }),
        match (overrides.agent_command, existing) {
            (Some(c), _) => r.agent.command == c,
            (None, Some(e)) => r.agent.command == e.agent.command,
            (None, None) => r.agent.command@ == program@ + config::DEFAULT_AGENT_FLAGS@,
        },
        r.agent.timeout_secs == (match (overrides.agent_timeout, existing) {
            (Some(t), _) => t,
            (None, Some(e)) => e.agent.timeout_secs,
            (None, None) => config::DEFAULT_AGENT_TIMEOUT_SECS,
        }),
{
    let mut c = match existing {
        Some(c) => c,
        None => NodeConfig::new(
            node,
            config::DEFAULT_CAPACITY,
            config::DEFAULT_API_BUDGET,
            config::DEFAULT_REQUEST_DELAY_MS,
            None,
            program,
        ),
    };
    c.node_id = node.to_owned();
    c.with_overrides(overrides)
}

/// How many of the claims on a thesis a node holds.
pub open spec fn claims_of(t: ThesisState, node: Seq<char>, n: nat) -> nat
    decreases n,
{
    if n == 0 {
        0
    } else {
        claims_of(t, node, (n - 1) as nat) + (if t.active_claims@[n - 1].node@ == node {
            1nat
        } else {
            0nat
        })
    }
}

/// How many claims on theses a node holds.
pub open spec fn held_claims(theses: Seq<ThesisState>, node: Seq<char>) -> nat
    decreases theses.len(),
{
    if theses.len() == 0 {
        0
    } else {
        held_claims(theses.drop_last(), node) + claims_of(
            theses.last(),
            node,
            theses.last().active_claims@.len(),
        )
    }
}

/// How many claims on theses a node holds; no more than can be counted.
pub fn node_active_claims(repo_state: &RepositoryState, node_id: &str) -> (r: usize)
    ensures
        held_claims(repo_state.theses@, node_id@) <= usize::MAX ==> r == held_claims(
            repo_state.theses@,
            node_id@,
        ),
        held_claims(repo_state.theses@, node_id@) > usize::MAX ==> r == usize::MAX,
{
    let theses = &repo_state.theses;
    let mut total: usize = 0;
    let mut i: usize = 0;
    assert(theses@.take(0).len() == 0);
    while i < theses.len()
        invariant
            i <= theses.len(),
            total == (if held_claims(theses@.take(i as int), node_id@) <= usize::MAX {
                held_claims(theses@.take(i as int), node_id@) as int
            } else {
                usize::MAX as int
            }),
        decreases theses.len() - i,
    {
        assert(theses@.take(i + 1).drop_last() =~= theses@.take(i as int));
        let ghost before = held_claims(theses@.take(i as int), node_id@);
        let t = &theses[i];
        let mut k: usize = 0;
        while k < t.active_claims.len()
            invariant
                k <= t.active_claims.len(),
                total == (if before + claims_of(*t, node_id@, k as nat) <= usize::MAX {
                    (before + claims_of(*t, node_id@, k as nat)) as int
                } else {
                    usize::MAX as int
                }),
            decreases t.active_claims.len() - k,
        {
            if text::same(t.active_claims[k].node.as_str(), node_id) && total < usize::MAX {
                total = total + 1;
            }
            k = k + 1;
        }
        i = i + 1;
    }
    assert(theses@.take(i as int) =~= theses@);
    total
}

} // verus!
