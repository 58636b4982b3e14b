//! Proposes a new thesis.
use crate::commands::duties;
use crate::commands::duties::{DutyItem, DutyView};
use crate::comments::{CommentView, ProtocolComment};
use crate::config::ProtocolConfig;
use crate::state::{RepositoryState, ThesisState};
use crate::text;
use vstd::prelude::*;
use vstd::string::*;

verus! {

/// What came of a proposal.
#[derive(Debug)]
pub struct GenerateOutput {
    pub queue_depth: usize,
    pub issue_number: Option<u64>,
    pub issue_url: Option<String>,
    pub warned_below_min_queue_depth: bool,
    pub awaiting_maintainer_approval: bool,
}

/// What `str::to_lowercase` gives for a text.
pub uninterp spec fn lowercased(s: Seq<char>) -> Seq<char>;

/// What `char::is_alphanumeric` says of a character.
pub uninterp spec fn alphanumeric(c: char) -> bool;

/// A text in small letters, by `str::to_lowercase`.
#[verifier::external_body]
fn lowercase(s: &str) -> (r: String)
    ensures
        r@ == lowercased(s@),
{
    s.to_lowercase()
}

/// Whether a character is a letter or a digit, by `char::is_alphanumeric`.
#[verifier::external_body]
fn is_alphanumeric(c: char) -> (r: bool)
    ensures
        r == alphanumeric(c),
{
    c.is_alphanumeric()
}

/// The characters that are kept, with a space for each other one.
pub open spec fn spaced(chars: Seq<char>, kept: Seq<bool>) -> Seq<char>
    recommends
        chars.len() == kept.len(),
{
    Seq::new(
        chars.len(),
        |i: int| if kept[i] {
            chars[i]
        } else {
            ' '
        },
    )
}

/// The words of the characters that are kept, with single spaces between them.
pub open spec fn plain_words(chars: Seq<char>, kept: Seq<bool>) -> Seq<char> {
    text::joined(text::words_of(spaced(chars, kept)), " "@)
}

/// A title in small letters, without anything but letters, digits and single spaces.
pub open spec fn normalized(title: Seq<char>) -> Seq<char> {
    let chars = lowercased(title);
    plain_words(chars, chars.map_values(|c: char| alphanumeric(c)))
}

/// The words of the characters that are kept, with single spaces between them.
pub fn keep_words(chars: &Vec<char>, kept: &Vec<bool>) -> (r: String)
    requires
        chars.len() == kept.len(),
    ensures
        r@ == plain_words(chars@, kept@),
{
    let mut s = String::new();
    let mut i: usize = 0;
    assert(s@ =~= spaced(chars@, kept@).take(0));
    while i < chars.len()
        invariant
            i <= chars.len(),
            chars.len() == kept.len(),
            s@ == spaced(chars@, kept@).take(i as int),
        decreases chars.len() - i,
    {
        s.push(
            if kept[i] {
                chars[i]
            } else {
                ' '
            },
        );
        assert(s@ =~= spaced(chars@, kept@).take(i + 1));
        i = i + 1;
    }
    assert(spaced(chars@, kept@).take(i as int) =~= spaced(chars@, kept@));
    text::join(&text::split_whitespace(s.as_str()), " ")
}

/// A title in small letters, without anything but letters, digits and single spaces.
pub fn normalize_title(title: &str) -> (r: String)
    ensures
        r@ == normalized(title@),
{
    let chars: Vec<char> = text::chars_of(lowercase(title).as_str());
    let ghost wanted = chars@.map_values(|c: char| alphanumeric(c));
    let mut kept: Vec<bool> = Vec::new();
    let mut i: usize = 0;
    assert(kept@ =~= wanted.take(0));
    while i < chars.len()
        invariant
            i <= chars.len(),
            wanted == chars@.map_values(|c: char| alphanumeric(c)),
            kept@ == wanted.take(i as int),
        decreases chars.len() - i,
    {
        kept.push(is_alphanumeric(chars[i]));
        assert(kept@ =~= wanted.take(i + 1));
        i = i + 1;
    }
    assert(wanted.take(i as int) =~= wanted);
    keep_words(&chars, &kept)
}

/// The theses with the same title, but for case and punctuation.
pub open spec fn same_titles(theses: Seq<ThesisState>, title: Seq<char>) -> Seq<ThesisState>
    decreases theses.len(),
{
    if theses.len() == 0 {
        Seq::empty()
    } else {
        let rest = same_titles(theses.drop_last(), title);
        if normalized(theses.last().issue.title@) == normalized(title) {
            rest.push(theses.last())
        } else {
            rest
        }
    }
}

/// The theses with the same title, but for case and punctuation.
pub fn duplicate_titles<'a>(repo_state: &'a RepositoryState, proposed_title: &str) -> (r: Vec<
    &'a ThesisState,
>)
    ensures
        r@.map_values(|t: &ThesisState| *t) == same_titles(repo_state.theses@, proposed_title@),
{
    let theses = &repo_state.theses;
    let wanted = normalize_title(proposed_title);
    let mut r: Vec<&'a ThesisState> = Vec::new();
    let mut i: usize = 0;
    proof {
        assert(theses@.take(0).len() == 0);
        assert(r@.map_values(|t: &ThesisState| *t) =~= Seq::<ThesisState>::empty());
    }
    while i < theses.len()
        invariant
            i <= theses.len(),
            wanted@ == normalized(proposed_title@),
            r@.map_values(|t: &ThesisState| *t) == same_titles(
                theses@.take(i as int),
                proposed_title@,
            ),
        decreases theses.len() - i,
    {
        proof {
            assert(theses@.take(i + 1).drop_last() =~= theses@.take(i as int));
            assert(theses@.take(i + 1).last() == theses@[i as int]);
        }
        if text::same(
            normalize_title(theses[i].issue.title.as_str()).as_str(),
            wanted.as_str(),
        ) {
            let ghost before = r@;
            r.push(&theses[i]);
            assert(r@.map_values(|t: &ThesisState| *t) =~= before.map_values(
                |t: &ThesisState| *t,
            ).push(theses@[i as int]));
        }
        i = i + 1;
    }
    assert(theses@.take(i as int) =~= theses@);
    r
}

/// A thesis as it is listed.
pub open spec fn thesis_entry(t: ThesisState) -> Seq<char> {
    "  #"@ + text::decimal(t.issue.number as nat) + " ("@ + t.phase_word() + "): "@ + t.issue.title@
}

/// What is said where theses have the same title.
pub open spec fn duplicates_told(found: Seq<ThesisState>) -> Seq<char> {
    "proposed title duplicates existing thesis:\n"@ + text::joined(
        found.map_values(|t: ThesisState| thesis_entry(t)),
        "\n"@,
    ) + "\nUse a meaningfully different approach."@
}

/// Goes ahead only where no thesis has the same title.
pub fn ensure_new_title(repo_state: &RepositoryState, title: &str) -> (r: Result<(), String>)
    ensures
        ({
            let found = same_titles(repo_state.theses@, title@);
            if found.len() == 0 {
                r is Ok
            } else {
                r matches Err(e) && e@ == duplicates_told(found)
            }
        }),
{
    let found = duplicate_titles(repo_state, title);
    let ghost theses = found@.map_values(|t: &ThesisState| *t);
    assert(theses.len() == found@.len());
    if found.len() == 0 {
        return Ok(());
    }
    let ghost all = theses.map_values(|t: ThesisState| thesis_entry(t));
    let mut entries: Vec<String> = Vec::new();
    let mut i: usize = 0;
    assert(text::texts(entries@) =~= all.take(0));
    while i < found.len()
        invariant
            i <= found.len(),
            theses == found@.map_values(|t: &ThesisState| *t),
            all == theses.map_values(|t: ThesisState| thesis_entry(t)),
            text::texts(entries@) == all.take(i as int),
        decreases found.len() - i,
    {
        let t = found[i];
        let mut line = text::say("  #", t.issue.number, " (");
        line.append(t.phase_label().as_str());
        line.append("): ");
        line.append(t.issue.title.as_str());
        let ghost before = entries@;
        entries.push(line);
        proof {
            text::lemma_texts_push(before, entries@.last());
            assert(all[i as int] == thesis_entry(*t));
            assert(all.take(i + 1) =~= all.take(i as int).push(all[i as int]));
        }
        i = i + 1;
    }
    assert(all.take(i as int) =~= all);
    let mut m = "proposed title duplicates existing thesis:\n".to_owned();
    m.append(text::join(&entries, "\n").as_str());
    m.append("\nUse a meaningfully different approach.");
    Err(m)
}

/// The things to do that keep the lead from proposing: candidates to check or to decide.
pub open spec fn unprocessed(items: Seq<DutyView>) -> Seq<DutyView>
    decreases items.len(),
{
    if items.len() == 0 {
        Seq::empty()
    } else {
        let rest = unprocessed(items.drop_last());
        let d = items.last();
        if d.category == "decide"@ || d.category == "policy-check"@ {
            rest.push(d)
        } else {
            rest
        }
    }
}

/// Goes ahead only where no candidate is to be checked or decided first.
pub fn ensure_candidates_processed(blocking: &Vec<DutyItem>) -> (r: Result<(), String>)
    ensures
        ({
            let left = unprocessed(duties::duty_views(blocking@));
            if left.len() == 0 {
                r is Ok
            } else {
                r matches Err(e) && e@ == duties::blocked(
                    "cannot generate theses while PRs need processing:\n"@,
                    left,
                )
            }
        }),
{
    let ghost all = duties::duty_views(blocking@);
    let mut kept: Vec<DutyItem> = Vec::new();
    let mut i: usize = 0;
    proof {
        assert(all.take(0).len() == 0);
        assert(duties::duty_views(kept@) =~= Seq::<DutyView>::empty());
    }
    while i < blocking.len()
        invariant
            i <= blocking.len(),
            all == duties::duty_views(blocking@),
            duties::duty_views(kept@) == unprocessed(all.take(i as int)),
        decreases blocking.len() - i,
    {
        proof {
            assert(all.take(i + 1).drop_last() =~= all.take(i as int));
            assert(all.take(i + 1).last() == blocking@[i as int]@);
        }
        let item = &blocking[i];
        if text::same(item.category.as_str(), "decide") || text::same(
            item.category.as_str(),
            "policy-check",
        ) {
            let ghost before = kept@;
            kept.push(item.clone());
            assert(duties::duty_views(kept@) =~= duties::duty_views(before).push(item@));
        }
        i = i + 1;
    }
    proof {
        assert(all.take(i as int) =~= all);
        assert(duties::duty_views(kept@).len() == kept@.len());
    }
    duties::ensure_unblocked("cannot generate theses while PRs need processing:\n", &kept)
}

/// Goes ahead only where the queue has room.
pub fn ensure_queue_has_room(repo_state: &RepositoryState, config: &ProtocolConfig) -> (r: Result<
    (),
    String,
>)
    ensures
        match config.max_queue_depth {
            Some(max) if repo_state.queue_depth >= max => r matches Err(e) && e@
                == "queue depth is already "@ + text::decimal(repo_state.queue_depth as nat)
                + " (max_queue_depth = "@ + text::decimal(max as nat)
                + "), refusing to generate more theses"@,
            _ => r is Ok,
        },
{
    if let Some(max) = config.max_queue_depth {
        if repo_state.queue_depth >= max {
            let mut m = text::say(
                "queue depth is already ",
                repo_state.queue_depth as u64,
                " (max_queue_depth = ",
            );
            m.append(text::number(max as u64).as_str());
            m.append("), refusing to generate more theses");
            return Err(m);
        }
    }
    Ok(())
}

/// What is done with a thesis that was just made. Where it fails, the thesis is closed again.
#[derive(Debug)]
pub enum Opening {
    /// Approve it by this comment.
    Approve { comment: ProtocolComment },
    /// Assign it to the maintainer.
    Assign { maintainer: String },
}

/// Who is to approve a new thesis: nobody where theses are approved at once.
pub fn approver(config: &ProtocolConfig) -> (r: Result<Option<String>, String>)
    ensures
        if config.auto_approve {
            r == Ok::<Option<String>, String>(None)
        } else {
            match config.maintainer_github_login {
                Some(m) => r == Ok::<Option<String>, String>(Some(m)),
                None => r matches Err(e) && e@
                    == "maintainer_github_login is required in PROGRAM.md"@,
            }
        },
{
    if config.auto_approve {
        return Ok(None);
    }
    let maintainer = config.maintainer_login()?;
    Ok(Some(maintainer))
}

/// What is done with a thesis that was just made.
pub fn opening(number: u64, approver: Option<String>) -> (r: Opening)
    ensures
        match approver {
            None => r matches Opening::Approve { comment } && comment@ == (CommentView::Approval {
                thesis: number,
            }),
            Some(maintainer) => r == (Opening::Assign { maintainer }),
        },
{
    match approver {
        None => Opening::Approve { comment: ProtocolComment::Approval { thesis: number } },
        Some(maintainer) => Opening::Assign { maintainer },
    }
}

impl GenerateOutput {
    /// What came of a proposal.
    pub fn new(
        repo_state: &RepositoryState,
        config: &ProtocolConfig,
        issue_number: Option<u64>,
        issue_url: Option<String>,
    ) -> (r: Self)
        ensures
            r == (GenerateOutput {
                queue_depth: repo_state.queue_depth,
                issue_number,
                issue_url,
                warned_below_min_queue_depth: repo_state.queue_depth < config.min_queue_depth,
                awaiting_maintainer_approval: !config.auto_approve,
            }),
    {
        GenerateOutput {
            queue_depth: repo_state.queue_depth,
            issue_number,
            issue_url,
            warned_below_min_queue_depth: repo_state.queue_depth < config.min_queue_depth,
            awaiting_maintainer_approval: !config.auto_approve,
        }
    }

    /// The output as it is shown.
    pub open spec fn shown(&self) -> Seq<char> {
        let first = match self.issue_number {
            Some(n) => "Generated thesis #"@ + text::decimal(n as nat) + "."@,
            None => "Would generate a new thesis issue."@,
        };
        let second = if self.awaiting_maintainer_approval {
            first + " Awaiting maintainer /approve."@
        } else {
            first
        };
        if self.warned_below_min_queue_depth {
            second + " Queue depth is below min_queue_depth."@
        } else {
            second
        }
    }

    /// The output as it is shown.
    pub fn text(&self) -> (r: String)
        ensures
            r@ == self.shown(),
    {
        let mut m = match self.issue_number {
            Some(n) => text::say("Generated thesis #", n, "."),
            None => "Would generate a new thesis issue.".to_owned(),
        };
        if self.awaiting_maintainer_approval {
            m.append(" Awaiting maintainer /approve.");
        }
        if self.warned_below_min_queue_depth {
            m.append(" Queue depth is below min_queue_depth.");
        }
        m
    }
}

} // verus!
