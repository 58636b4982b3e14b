//! Sets a project up.
use crate::cli::NodeOverrides;
use crate::github;
use crate::github::RepoRef;
use crate::text;
use vstd::prelude::*;
use vstd::string::*;

verus! {

/// The name of the repository that a URL leads to.
pub open spec fn name_in(url: Seq<char>) -> Seq<char> {
    text::without_suffixes(text::after_last(text::without_trailing(url, '/'), '/'), ".git"@)
}

/// The name of the repository that a URL leads to.
pub fn repo_name_from_url(url: &str) -> (r: String)
    ensures
        r@ == name_in(url@),
{
    let last = text::last_part(text::trim_end_char(url, '/'), '/');
    text::trim_end_str(last.as_str(), ".git").to_owned()
}

/// The owner and the name of the repository that a URL on the host leads to.
pub open spec fn parts_in(url: Seq<char>) -> Option<(Seq<char>, Seq<char>)> {
    match github::on_host(url) {
        Some(t) => github::repo_parts(t),
        None => None,
    }
}

/// How the repository is had.
#[derive(Debug)]
pub enum CloneStep {
    /// It is there: fetch what is new.
    Fetch,
    /// It is there.
    Skip,
    /// Clone it.
    Clone,
    /// Fork it to this owner, and clone the fork.
    Fork { owner: String },
    /// Ask whether it may be pushed to.
    AskAccess { owner: String, name: String },
}

/// How the repository is had: as the command line says, else cloned where it may be pushed to and
/// forked where it may not.
pub fn clone_step(url: &str, no_fork: bool, fork: &Option<String>, exists: bool) -> (r: Result<
    CloneStep,
    String,
>)
    ensures
        if no_fork {
            r == Ok::<CloneStep, String>(
                if exists {
                    CloneStep::Fetch
                } else {
                    CloneStep::Clone
                },
            )
        } else {
            match *fork {
                Some(owner) => r == Ok::<CloneStep, String>(
                    if exists {
                        CloneStep::Skip
                    } else {
                        CloneStep::Fork { owner }
                    },
                ),
                None => if exists {
                    r == Ok::<CloneStep, String>(CloneStep::Fetch)
                } else {
                    match parts_in(url@) {
                        Some((o, n)) => r matches Ok(CloneStep::AskAccess { owner, name })
                            && owner@ == o && name@ == n,
                        None => r matches Err(e) && e@
                            == "could not parse GitHub owner/repo from URL: "@ + url@,
                    }
                },
            }
        },
{
    if no_fork {
        if exists {
            return Ok(CloneStep::Fetch);
        }
        return Ok(CloneStep::Clone);
    }
    match fork {
        Some(owner) => {
            if exists {
                Ok(CloneStep::Skip)
            } else {
                Ok(CloneStep::Fork { owner: owner.clone() })
            }
        },
        None => {
            if exists {
                return Ok(CloneStep::Fetch);
            }
            match RepoRef::parse_url(url) {
                Some(upstream) => Ok(
                    CloneStep::AskAccess { owner: upstream.owner, name: upstream.name },
                ),
                None => {
                    let mut m = "could not parse GitHub owner/repo from URL: ".to_owned();
                    m.append(url);
                    Err(m)
                },
            }
        },
    }
}

/// Whether the answer to the question for access is yes.
pub fn has_push_access(output: &str) -> (r: bool)
    ensures
        r == (text::trimmed(output@) == "true"@),
{
    text::same(text::trim(output), "true")
}

/// How the repository is had, once it is known whether it may be pushed to and who asks.
pub fn after_access(may_push: bool, login: Result<String, String>) -> (r: Result<CloneStep, String>)
    ensures
        if may_push {
            r == Ok::<CloneStep, String>(CloneStep::Clone)
        } else {
            match login {
                Ok(owner) => r == Ok::<CloneStep, String>(CloneStep::Fork { owner }),
                Err(e) => r == Err::<CloneStep, String>(e),
            }
        },
{
    if may_push {
        return Ok(CloneStep::Clone);
    }
    let owner = login?;
    Ok(CloneStep::Fork { owner })
}

/// Who asks, out of the host's answer.
pub fn login_in(output: &str) -> (r: Result<String, String>)
    ensures
        if text::trimmed(output@).len() == 0 {
            r matches Err(e) && e@
                == "could not determine GitHub login; run `gh auth login` first"@
        } else {
            r matches Ok(t) && t@ == text::trimmed(output@)
        },
{
    let login = text::trim(output);
    if login.unicode_len() == 0 {
        return Err("could not determine GitHub login; run `gh auth login` first".to_owned());
    }
    Ok(login.to_owned())
}

/// The arguments that fork a repository. The owner is named where it is someone else than who
/// asks.
pub fn fork_args(url: &str, fork_owner: &str, current_user: &str) -> (r: Vec<String>)
    ensures
        text::texts(r@) == (if current_user@.len() > 0 && fork_owner@ != current_user@ {
            seq!["repo"@, "fork"@, url@, "--clone=false"@, "--org="@ + fork_owner@]
        } else {
            seq!["repo"@, "fork"@, url@, "--clone=false"@]
        }),
{
    if current_user.unicode_len() > 0 && !text::same(fork_owner, current_user) {
        let mut org = "--org=".to_owned();
        org.append(fork_owner);
        let r = text::owned(&["repo", "fork", url, "--clone=false", org.as_str()]);
        assert(text::texts(r@) =~= seq![
            "repo"@,
            "fork"@,
            url@,
            "--clone=false"@,
            "--org="@ + fork_owner@,
        ]);
        r
    } else {
        let r = text::owned(&["repo", "fork", url, "--clone=false"]);
        assert(text::texts(r@) =~= seq!["repo"@, "fork"@, url@, "--clone=false"@]);
        r
    }
}

/// Goes on after a fork that failed only where the fork is there already.
pub fn ensure_forked(succeeded: bool, stderr: &str) -> (r: Result<(), String>)
    ensures
        if succeeded || text::holds(stderr@, "already exists"@) {
            r is Ok
        } else {
            r matches Err(e) && e@ == "fork failed: "@ + stderr@
        },
{
    if succeeded || text::contains(stderr, "already exists") {
        return Ok(());
    }
    let mut m = "fork failed: ".to_owned();
    m.append(stderr);
    Err(m)
}

/// The URL of a fork.
pub fn fork_url(owner: &str, url: &str) -> (r: String)
    ensures
        r@ == "https://github.com/"@ + owner@ + "/"@ + name_in(url@) + ".git"@,
{
    let mut r = "https://github.com/".to_owned();
    r.append(owner);
    r.append("/");
    r.append(repo_name_from_url(url).as_str());
    r.append(".git");
    r
}

/// A text with each place where `from` stands filled by `to`.
pub open spec fn replaced(s: Seq<char>, from: Seq<char>, to: Seq<char>) -> Seq<char> {
    text::joined(text::pieces(s, from), to)
}

/// A template with its goal filled in: what stands between the goal's heading and the next one.
pub open spec fn with_goal(template: Seq<char>, goal: Seq<char>) -> Seq<char> {
    let header = "## Goal\n"@;
    match text::find_from(template, header, 0) {
        None => template,
        Some(start) => {
            let from = start + header.len();
            let to = match text::find_from(template, "\n## "@, from) {
                Some(k) => k,
                None => template.len() as int,
            };
            template.take(from) + "\n"@ + goal + "\n"@ + template.skip(to)
        },
    }
}

/// A template with its goal filled in.
pub fn replace_goal_section(template: &str, goal: &str) -> (r: String)
    ensures
        r@ == with_goal(template@, goal@),
{
    let header = "## Goal\n";
    let v: Vec<char> = text::chars_of(template);
    let start: usize = match text::find(template, header) {
        Some(k) => k,
        None => {
            return template.to_owned();
        },
    };
    proof {
        text::lemma_find_from(template@, header@, 0);
        assert(start + header@.len() <= v.len());
    }
    let from: usize = start + text::chars_of(header).len();
    let to: usize = match text::position(&v, &text::chars_of("\n## "), from) {
        Some(k) => k,
        None => v.len(),
    };
    proof {
        text::lemma_find_from(template@, "\n## "@, from as int);
        assert(template@.subrange(0, from as int) =~= template@.take(from as int));
        assert(template@.subrange(to as int, v@.len() as int) =~= template@.skip(to as int));
    }
    let mut r = text::string_of(&v, 0, from);
    r.append("\n");
    r.append(goal);
    r.append("\n");
    r.append(text::string_of(&v, to, v.len()).as_str());
    r
}

/// The text of a new program file: the template with the version, and with the goal where one was
/// given.
pub fn program_text(template: &str, version: &str, goal: Option<&str>) -> (r: String)
    ensures
        ({
            let versioned = replaced(template@, "{{VERSION}}"@, version@);
            r@ == (match goal {
                Some(g) => with_goal(versioned, g@),
                None => versioned,
            })
        }),
{
    let versioned = text::join(&text::split(template, "{{VERSION}}"), version);
    match goal {
        Some(g) => replace_goal_section(versioned.as_str(), g),
        None => versioned,
    }
}

/// The heading of a new ledger.
pub const LEDGER_HEADER: &'static str = "thesis\tattempt\tmetric\tbaseline\tstatus\tsummary\n";

/// The overrides that a new node's configuration is saved with.
pub fn has_overrides(o: &NodeOverrides) -> (r: bool)
    ensures
        r == (o.capacity is Some || o.api_budget is Some || o.request_delay is Some
            || o.agent_command is Some),
{
    o.capacity.is_some() || o.api_budget.is_some() || o.request_delay.is_some()
        || o.agent_command.is_some()
}

/// A text with a section that `contents` may lack.
pub open spec fn with_section(s: Seq<char>, contents: Seq<char>, section: Seq<char>) -> Seq<char> {
    if text::holds(contents, section) {
        s
    } else {
        s + "\n"@ + section + "\n\n(to be filled in)\n"@
    }
}

/// A program file with all the sections that it must have.
pub open spec fn complete(contents: Seq<char>) -> Seq<char> {
    with_section(
        with_section(
            with_section(contents, contents, "## Goal"@),
            contents,
            "## What you CAN modify"@,
        ),
        contents,
        "## What you CANNOT modify"@,
    )
}

fn add_section(s: &mut String, contents: &str, section: &str)
    ensures
        final(s)@ == with_section(old(s)@, contents@, section@),
{
    if !text::contains(contents, section) {
        s.append("\n");
        s.append(section);
        s.append("\n\n(to be filled in)\n");
    }
}

/// A program file with all the sections that it must have.
pub fn normalize_program_md(contents: &str) -> (r: String)
    ensures
        r@ == complete(contents@),
{
    let mut r = contents.to_owned();
    add_section(&mut r, contents, "## Goal");
    add_section(&mut r, contents, "## What you CAN modify");
    add_section(&mut r, contents, "## What you CANNOT modify");
    r
}

proof fn lemma_holds_at(s: Seq<char>, p: Seq<char>, k: int)
    requires
        text::occurs_at(s, p, k),
    ensures
        text::holds(s, p),
{
    text::lemma_find_from(s, p, 0);
}

proof fn lemma_still_holds(s: Seq<char>, contents: Seq<char>, section: Seq<char>, p: Seq<char>)
    requires
        text::holds(s, p),
    ensures
        text::holds(with_section(s, contents, section), p),
{
    let t = with_section(s, contents, section);
    text::lemma_find_from(s, p, 0);
    let k = text::find_from(s, p, 0)->Some_0;
    assert(t.subrange(k, k + p.len()) =~= s.subrange(k, k + p.len()));
    lemma_holds_at(t, p, k);
}

proof fn lemma_section_held(s: Seq<char>, contents: Seq<char>, section: Seq<char>)
    requires
        text::holds(contents, section) ==> text::holds(s, section),
    ensures
        text::holds(with_section(s, contents, section), section),
{
    if !text::holds(contents, section) {
        let t = with_section(s, contents, section);
        let k: int = s.len() + "\n"@.len() as int;
        assert(t.subrange(k, k + section.len()) =~= section);
        lemma_holds_at(t, section, k);
    }
}

/// A completed program file holds all its sections and starts as it did, and completing it again
/// changes nothing.
pub proof fn completing_twice_changes_nothing(contents: Seq<char>)
    ensures
        text::holds(complete(contents), "## Goal"@),
        text::holds(complete(contents), "## What you CAN modify"@),
        text::holds(complete(contents), "## What you CANNOT modify"@),
        complete(contents).len() >= contents.len(),
        complete(contents).take(contents.len() as int) == contents,
        complete(complete(contents)) == complete(contents),
{
    let goal = "## Goal"@;
    let can = "## What you CAN modify"@;
    let cannot = "## What you CANNOT modify"@;
    let a = with_section(contents, contents, goal);
    let b = with_section(a, contents, can);
    let c = with_section(b, contents, cannot);
    lemma_section_held(contents, contents, goal);
    lemma_still_holds(a, contents, can, goal);
    lemma_still_holds(b, contents, cannot, goal);
    if text::holds(contents, can) {
        lemma_still_holds(contents, contents, goal, can);
    }
    lemma_section_held(a, contents, can);
    lemma_still_holds(b, contents, cannot, can);
    if text::holds(contents, cannot) {
        lemma_still_holds(contents, contents, goal, cannot);
        lemma_still_holds(a, contents, can, cannot);
    }
    lemma_section_held(b, contents, cannot);
    assert(c.take(contents.len() as int) =~= contents);
}

} // verus!
