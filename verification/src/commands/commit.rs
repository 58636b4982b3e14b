//! Commits the changes that a candidate may make.
use crate::config;
use crate::config::ProgramSpec;
use crate::editable_surface;
use crate::state::ThesisState;
use crate::text;
use crate::text_set;
use vstd::prelude::*;
use vstd::string::*;

verus! {

/// Changes that were committed.
#[derive(Debug)]
pub struct CommitOutput {
    pub issue: u64,
    pub branch: String,
    pub message: String,
}

/// The message of a commit: the thesis, and what was said or the thesis's title.
pub fn commit_message(thesis: &ThesisState, issue: u64, message: &Option<String>) -> (r: String)
    ensures
        r@ == "thesis/"@ + text::decimal(issue as nat) + ": "@ + (match *message {
            Some(m) => m@,
            None => thesis.issue.title@,
        }),
{
    let mut r = text::say("thesis/", issue, ": ");
    match message {
        Some(m) => r.append(m.as_str()),
        None => r.append(thesis.issue.title.as_str()),
    }
    r
}

/// The path is a protected one, or lies below it.
pub open spec fn lies_in(path: Seq<char>, place: Seq<char>) -> bool {
    text::begins(path, place) || path == text::without_trailing(place, '/')
}

/// The path lies in one of the places.
pub open spec fn lies_in_one(path: Seq<char>, places: Seq<Seq<char>>) -> bool {
    exists|i: int| 0 <= i < places.len() && lies_in(path, #[trigger] places[i])
}

/// A commit may hold a change of the file.
pub open spec fn committable(program: ProgramSpec, path: Seq<char>) -> bool {
    &&& !lies_in_one(path, editable_surface::always_protected())
    &&& editable_surface::allows(
        text::texts(program.can_modify@),
        text::texts(program.cannot_modify@),
        path,
    )
}

/// Whether a commit may hold a change of a file.
pub fn is_allowed(program: &ProgramSpec, file_path: &str) -> (r: Result<bool, String>)
    ensures
        ({
            let can = text::texts(program.can_modify@);
            if lies_in_one(file_path@, editable_surface::always_protected())
                || editable_surface::guarded(text::texts(program.cannot_modify@), file_path@) {
                r == Ok::<bool, String>(false)
            } else if editable_surface::usable(can) {
                r == Ok::<bool, String>(committable(*program, file_path@))
            } else {
                r matches Err(e) && editable_surface::tells_unusable(can, e@)
            }
        }),
{
    let places = editable_surface::protected_patterns();
    let ghost all = text::texts(places@);
    let ghost cannot = text::texts(program.cannot_modify@);
    let mut i: usize = 0;
    while i < places.len()
        invariant
            i <= places.len(),
            all == text::texts(places@),
            all == editable_surface::always_protected(),
            forall|j: int| 0 <= j < i ==> !lies_in(file_path@, #[trigger] all[j]),
        decreases places.len() - i,
    {
        assert(all[i as int] == places@[i as int]@);
        if text::starts_with(file_path, places[i].as_str()) || text::same(
            file_path,
            text::trim_end_char(places[i].as_str(), '/'),
        ) {
            assert(lies_in(file_path@, all[i as int]));
            return Ok(false);
        }
        i = i + 1;
    }
    let protected = program.is_protected(file_path);
    proof {
        if editable_surface::guarded(cannot, file_path@) {
            let k = choose|k: int|
                0 <= k < cannot.len() && config::guards(#[trigger] cannot[k], file_path@);
            assert(config::guards(program.cannot_modify@[k]@, file_path@));
        }
        if protected {
            let k = choose|k: int|
                0 <= k < program.cannot_modify@.len() && config::guards(
                    (#[trigger] program.cannot_modify@[k])@,
                    file_path@,
                );
            assert(config::guards(cannot[k], file_path@));
        }
    }
    if protected {
        return Ok(false);
    }
    program.is_editable(file_path)
}

/// The lines that are not empty.
pub open spec fn full_lines(lines: Seq<Seq<char>>) -> Seq<Seq<char>>
    decreases lines.len(),
{
    if lines.len() == 0 {
        Seq::empty()
    } else {
        let rest = full_lines(lines.drop_last());
        if lines.last().len() == 0 {
            rest
        } else {
            rest.push(lines.last())
        }
    }
}

/// The lines of an output that are not empty.
pub fn parse_lines(output: &str) -> (r: Vec<String>)
    ensures
        text::texts(r@) == full_lines(text::lines_of(output@)),
{
    let lines = text::lines(output);
    let ghost all = text::lines_of(output@);
    let mut r: Vec<String> = Vec::new();
    let mut i: usize = 0;
    proof {
        assert(all.take(0).len() == 0);
        assert(text::texts(r@) =~= Seq::<Seq<char>>::empty());
    }
    while i < lines.len()
        invariant
            i <= lines.len(),
            text::texts(lines@) == all,
            text::texts(r@) == full_lines(all.take(i as int)),
        decreases lines.len() - i,
    {
        proof {
            assert(all.take(i + 1).drop_last() =~= all.take(i as int));
            assert(all.take(i + 1).last() == all[i as int]);
            assert(all[i as int] == lines@[i as int]@);
        }
        if lines[i].as_str().unicode_len() > 0 {
            let ghost before = r@;
            r.push(lines[i].clone());
            proof {
                text::lemma_texts_push(before, r@.last());
            }
        }
        i = i + 1;
    }
    assert(all.take(i as int) =~= all);
    r
}

/// The paths that have changed: the ordered set of those that three outputs list.
pub fn changed_paths(changed: &str, untracked: &str, staged: &str) -> (r: Vec<String>)
    ensures
        text::texts(r@) == text_set::set_of(
            full_lines(text::lines_of(changed@)) + full_lines(text::lines_of(untracked@))
                + full_lines(text::lines_of(staged@)),
        ),
{
    let ghost a = full_lines(text::lines_of(changed@));
    let ghost b = full_lines(text::lines_of(untracked@));
    let ghost c = full_lines(text::lines_of(staged@));
    let mut r: Vec<String> = Vec::new();
    assert(text::texts(r@) =~= text_set::set_of(Seq::empty()));
    editable_surface::put_all(&mut r, &parse_lines(changed));
    proof {
        editable_surface::lemma_all_put(Seq::empty(), a);
        assert(Seq::<Seq<char>>::empty() + a =~= a);
    }
    editable_surface::put_all(&mut r, &parse_lines(untracked));
    proof {
        editable_surface::lemma_all_put(a, b);
    }
    editable_surface::put_all(&mut r, &parse_lines(staged));
    proof {
        editable_surface::lemma_all_put(a + b, c);
    }
    r
}

/// The paths that a commit may not hold a change of; where the patterns cannot be used, none may.
pub open spec fn uncommittable(program: ProgramSpec, paths: Seq<Seq<char>>) -> Seq<Seq<char>>
    decreases paths.len(),
{
    if paths.len() == 0 {
        Seq::empty()
    } else {
        let rest = uncommittable(program, paths.drop_last());
        if editable_surface::usable(text::texts(program.can_modify@)) && committable(
            program,
            paths.last(),
        ) {
            rest
        } else {
            rest.push(paths.last())
        }
    }
}

/// Why what was staged cannot be committed.
pub open spec fn stage_refusal(program: ProgramSpec, staged: Seq<Seq<char>>) -> Option<Seq<char>> {
    let bad = uncommittable(program, staged);
    if bad.len() > 0 {
        Some("staged files outside the editable surface: "@ + text::joined(bad, ", "@))
    } else if staged.len() == 0 {
        Some("no changes to commit within the editable surface"@)
    } else {
        None
    }
}

/// Goes ahead only where what was staged can be committed. What may not be committed is to be
/// unstaged, as the second part of the error says.
pub fn ensure_committable(program: &ProgramSpec, staged: &Vec<String>) -> (r: Result<
    (),
    (String, bool),
>)
    ensures
        match stage_refusal(*program, text::texts(staged@)) {
            None => r is Ok,
            Some(m) => r matches Err(e) && e.0@ == m && e.1 == (uncommittable(
                *program,
                text::texts(staged@),
            ).len() > 0),
        },
{
    let ghost all = text::texts(staged@);
    let mut bad: Vec<String> = Vec::new();
    let mut i: usize = 0;
    proof {
        assert(all.take(0).len() == 0);
        assert(text::texts(bad@) =~= Seq::<Seq<char>>::empty());
    }
    while i < staged.len()
        invariant
            i <= staged.len(),
            all == text::texts(staged@),
            text::texts(bad@) == uncommittable(*program, all.take(i as int)),
        decreases staged.len() - i,
    {
        proof {
            assert(all.take(i + 1).drop_last() =~= all.take(i as int));
            assert(all.take(i + 1).last() == staged@[i as int]@);
        }
        let allowed = match is_allowed(program, staged[i].as_str()) {
            Ok(b) => b,
            Err(_) => false,
        };
        if !allowed {
            let ghost before = bad@;
            bad.push(staged[i].clone());
            proof {
                text::lemma_texts_push(before, bad@.last());
            }
        }
        i = i + 1;
    }
    proof {
        assert(all.take(i as int) =~= all);
        assert(text::texts(bad@).len() == bad@.len());
        assert(all.len() == staged@.len());
    }
    if bad.len() > 0 {
        let mut m = "staged files outside the editable surface: ".to_owned();
        m.append(text::join(&bad, ", ").as_str());
        return Err((m, true));
    }
    if staged.len() == 0 {
        return Err(("no changes to commit within the editable surface".to_owned(), false));
    }
    Ok(())
}

impl CommitOutput {
    /// The output as it is shown.
    pub open spec fn shown(&self, dry_run: bool) -> Seq<char> {
        (if dry_run {
            "Would commit"@
        } else {
            "Committed"@
        }) + " editable-surface changes for thesis #"@ + text::decimal(self.issue as nat)
            + " on `"@ + self.branch@ + "` as `"@ + self.message@ + "`."@
    }

    /// The output as it is shown.
    pub fn text(&self, dry_run: bool) -> (r: String)
        ensures
            r@ == self.shown(dry_run),
    {
        let mut r = if dry_run {
            "Would commit".to_owned()
        } else {
            "Committed".to_owned()
        };
        r.append(" editable-surface changes for thesis #");
        r.append(text::number(self.issue).as_str());
        r.append(" on `");
        r.append(self.branch.as_str());
        r.append("` as `");
        r.append(self.message.as_str());
        r.append("`.");
        r
    }
}

} // verus!
