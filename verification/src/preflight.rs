//! What is checked before the work starts.
use crate::agent;
use crate::text;
use vstd::prelude::*;
use vstd::string::*;

verus! {

/// What an agent is told to try it out.
pub const SMOKE_TEST_PROMPT: &'static str = "Respond with exactly: PREFLIGHT_OK";

/// How many seconds an agent gets to be tried out.
pub const DEFAULT_SMOKE_TIMEOUT_SECS: u64 = 30;

/// How many changed files are listed.
pub const PREVIEW_LINES: usize = 10;

/// Refuses an agent without permissions where everything is permitted anyway. The hint names the
/// settings that `program` keeps in the home directory.
pub fn check_root_dangerous_flag(agent_command: &str, is_root: bool, program: &str) -> (r: Result<
    (),
    String,
>)
    ensures
        if text::holds(agent_command@, "--dangerously-skip-permissions"@) && is_root {
            r matches Err(e) && e@
                == "pre-flight: running as root with --dangerously-skip-permissions is not supported\nHint: add allowed tools to ~/."@
                + program@ + "/settings.json instead, or run as a non-root user"@
        } else {
            r is Ok
        },
{
    if !text::contains(agent_command, "--dangerously-skip-permissions") {
        return Ok(());
    }
    if is_root {
        let mut e =
            "pre-flight: running as root with --dangerously-skip-permissions is not supported\nHint: add allowed tools to ~/.".to_owned();
        e.append(program);
        e.append("/settings.json instead, or run as a non-root user");
        return Err(e);
    }
    Ok(())
}

/// Whether the output of the command that tells the user's number is that of the superuser.
pub fn is_root_id(output: &str) -> (r: bool)
    ensures
        r == (text::trimmed(output@) == "0"@),
{
    text::same(text::trim(output), "0")
}

/// The program and the arguments by which an agent is tried out.
pub fn smoke_command(agent_command: &str) -> (r: Result<Vec<String>, String>)
    ensures
        ({
            let words = agent::words_in(agent_command@);
            if words.len() == 0 {
                r matches Err(e) && e@ == "pre-flight: agent command is empty"@
            } else {
                r matches Ok(v) && text::texts(v@) == words.push(SMOKE_TEST_PROMPT@)
            }
        }),
{
    let mut parts = agent::shell_words(agent_command);
    assert(text::texts(parts@).len() == parts@.len());
    if parts.len() == 0 {
        return Err("pre-flight: agent command is empty".to_owned());
    }
    let ghost before = parts@;
    parts.push(SMOKE_TEST_PROMPT.to_owned());
    proof {
        text::lemma_texts_push(before, parts@.last());
    }
    Ok(parts)
}

/// What is said where an agent could not be started.
pub fn start_failure(program: &str, error: &str) -> (r: String)
    ensures
        r@ == "pre-flight: agent command `"@ + program@ + "` failed to start: "@ + error@
            + "\nHint: verify the binary is installed and on your PATH"@,
{
    let mut r = "pre-flight: agent command `".to_owned();
    r.append(program);
    r.append("` failed to start: ");
    r.append(error);
    r.append("\nHint: verify the binary is installed and on your PATH");
    r
}

/// What is said of changed files: how many there are, and the first of them.
pub open spec fn dirty_notice(status: Seq<char>) -> Seq<char> {
    let lines = text::lines_of(text::trimmed(status));
    let count: nat = if lines.len() >= 1 {
        lines.len()
    } else {
        1
    };
    let shown = if lines.len() <= PREVIEW_LINES {
        lines
    } else {
        lines.take(PREVIEW_LINES as int)
    };
    let more = if count > PREVIEW_LINES {
        "\n  ... and "@ + text::decimal((count - PREVIEW_LINES) as nat) + " more"@
    } else {
        Seq::empty()
    };
    "pre-flight: working tree has "@ + text::decimal(count)
        + " uncommitted change(s) to tracked files:\n  "@ + text::joined(shown, "\n  "@) + more
        + "\nHint: commit or stash your changes before running the loop"@
}

/// Goes ahead only where no file that belongs to the repository has changed, staged or not;
/// `status` lists the changed files.
pub fn check_clean_working_tree(unstaged_clean: bool, staged_clean: bool, status: &str) -> (r:
    Result<(), String>)
    ensures
        if unstaged_clean && staged_clean {
            r is Ok
        } else {
            r matches Err(e) && e@ == dirty_notice(status@)
        },
{
    if unstaged_clean && staged_clean {
        return Ok(());
    }
    let mut lines = text::lines(text::trim(status));
    let ghost all = text::lines_of(text::trimmed(status@));
    assert(all.len() == lines@.len());
    let count: usize = if lines.len() >= 1 {
        lines.len()
    } else {
        1
    };
    let more = if count > PREVIEW_LINES {
        text::say("\n  ... and ", (count - PREVIEW_LINES) as u64, " more")
    } else {
        let none = String::new();
        assert(none@ =~= Seq::<char>::empty());
        none
    };
    if lines.len() > PREVIEW_LINES {
        lines.truncate(PREVIEW_LINES);
        assert(text::texts(lines@) =~= all.take(PREVIEW_LINES as int));
    }
    let mut m = text::say(
        "pre-flight: working tree has ",
        count as u64,
        " uncommitted change(s) to tracked files:\n  ",
    );
    m.append(text::join(&lines, "\n  ").as_str());
    m.append(more.as_str());
    m.append("\nHint: commit or stash your changes before running the loop");
    Err(m)
}

} // verus!
