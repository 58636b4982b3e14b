//! Which files a candidate may change.
use crate::config;
use crate::config::ProgramSpec;
use crate::globs;
use crate::text;
use crate::text_set;
use vstd::prelude::*;
use vstd::string::*;

verus! {

/// The patterns of files that no candidate may change.
pub open spec fn always_protected() -> Seq<Seq<char>> {
    seq![".polyresearch/"@, ".polyresearch-node.toml"@, "PROGRAM.md"@, "PREPARE.md"@]
}

/// The patterns of files that no candidate may change.
pub fn protected_patterns() -> (r: Vec<String>)
    ensures
        text::texts(r@) == always_protected(),
{
    let r = text::owned(&[".polyresearch/", ".polyresearch-node.toml", "PROGRAM.md", "PREPARE.md"]);
    assert(text::texts(r@) =~= always_protected());
    r
}

/// The files that a candidate may change.
#[derive(Debug)]
pub struct EditableSurface {
    pub program: ProgramSpec,
}

/// A list with a text that it may lack.
pub open spec fn with(list: Seq<Seq<char>>, x: Seq<char>) -> Seq<Seq<char>> {
    if list.contains(x) {
        list
    } else {
        list.push(x)
    }
}

/// A list with texts that it may lack.
pub open spec fn with_all(list: Seq<Seq<char>>, more: Seq<Seq<char>>) -> Seq<Seq<char>>
    decreases more.len(),
{
    if more.len() == 0 {
        list
    } else {
        with(with_all(list, more.drop_last()), more.last())
    }
}

/// The patterns can be used: each of them is one, and they take no more room than there is.
pub open spec fn usable(patterns: Seq<Seq<char>>) -> bool {
    globs::first_bad(config::as_globs(patterns), 0) is None && globs::fits(
        config::as_globs(patterns),
    )
}

/// The text tells which of the patterns is none. Where they only take too much room, it is the
/// text of the crate that matches them.
pub open spec fn tells_unusable(patterns: Seq<Seq<char>>, e: Seq<char>) -> bool {
    match globs::first_bad(config::as_globs(patterns), 0) {
        Some(i) => e == "invalid editable glob pattern `"@ + patterns[i] + "`"@,
        None => true,
    }
}

/// One of the patterns guards the path.
pub open spec fn guarded(patterns: Seq<Seq<char>>, path: Seq<char>) -> bool {
    exists|i: int| 0 <= i < patterns.len() && config::guards(#[trigger] patterns[i], path)
}

/// One of the patterns is the path, or a directory that holds it.
pub open spec fn covered(patterns: Seq<Seq<char>>, path: Seq<char>) -> bool {
    exists|i: int| 0 <= i < patterns.len() && config::covers(#[trigger] patterns[i], path)
}

/// A file of the evaluation: the program, how it is prepared, the configuration of a node, and
/// what is in the directory of the evaluation.
pub open spec fn of_evaluation(path: Seq<char>) -> bool {
    ||| path == "PROGRAM.md"@
    ||| path == "PREPARE.md"@
    ||| path == ".polyresearch-node.toml"@
    ||| text::begins(path, ".polyresearch/"@)
}

/// The program may change the file: one of its patterns matches the path, and none guards it.
pub open spec fn allows(can: Seq<Seq<char>>, cannot: Seq<Seq<char>>, path: Seq<char>) -> bool {
    globs::one_matches(config::as_globs(can), path) && !guarded(cannot, path)
}

/// The paths that a candidate may not change.
pub open spec fn violations(can: Seq<Seq<char>>, cannot: Seq<Seq<char>>, paths: Seq<Seq<char>>) -> Seq<
    Seq<char>,
>
    decreases paths.len(),
{
    if paths.len() == 0 {
        Seq::empty()
    } else {
        let rest = violations(can, cannot, paths.drop_last());
        if allows(can, cannot, paths.last()) {
            rest
        } else {
            rest.push(paths.last())
        }
    }
}

/// The paths that a candidate may change.
pub open spec fn allowed(can: Seq<Seq<char>>, cannot: Seq<Seq<char>>, paths: Seq<Seq<char>>) -> Seq<
    Seq<char>,
>
    decreases paths.len(),
{
    if paths.len() == 0 {
        Seq::empty()
    } else {
        let rest = allowed(can, cannot, paths.drop_last());
        if allows(can, cannot, paths.last()) {
            rest.push(paths.last())
        } else {
            rest
        }
    }
}

/// The trimmed lines that are not empty.
pub open spec fn trimmed_lines(lines: Seq<Seq<char>>) -> Seq<Seq<char>>
    decreases lines.len(),
{
    if lines.len() == 0 {
        Seq::empty()
    } else {
        let rest = trimmed_lines(lines.drop_last());
        let line = text::trimmed(lines.last());
        if line.len() == 0 {
            rest
        } else {
            rest.push(line)
        }
    }
}

/// The paths that an output lists.
pub open spec fn listed_paths(output: Seq<char>) -> Seq<Seq<char>> {
    trimmed_lines(text::lines_of(output))
}

/// The paths that an output lists.
pub fn parse_output_lines(output: &str) -> (r: Vec<String>)
    ensures
        text::texts(r@) == listed_paths(output@),
{
    let lines = text::lines(output);
    let ghost all = text::lines_of(output@);
    let mut r: Vec<String> = Vec::new();
    let mut i: usize = 0;
    proof {
        assert(all.take(0).len() == 0);
        assert(text::texts(r@) =~= Seq::<Seq<char>>::empty());
    }
    while i < lines.len()
        invariant
            i <= lines.len(),
            text::texts(lines@) == all,
            text::texts(r@) == trimmed_lines(all.take(i as int)),
        decreases lines.len() - i,
    {
        proof {
            assert(all.take(i + 1).drop_last() =~= all.take(i as int));
            assert(all.take(i + 1).last() == all[i as int]);
            assert(all[i as int] == lines@[i as int]@);
        }
        let line = text::trim(lines[i].as_str());
        if line.unicode_len() > 0 {
            let ghost before = r@;
            r.push(line.to_owned());
            proof {
                text::lemma_texts_push(before, r@.last());
            }
        }
        i = i + 1;
    }
    assert(all.take(i as int) =~= all);
    r
}

/// Puts texts into an ordered set.
pub fn put_all(set: &mut Vec<String>, paths: &Vec<String>)
    ensures
        text::texts(final(set)@) == all_put(text::texts(old(set)@), text::texts(paths@)),
{
    let ghost start = text::texts(set@);
    let ghost all = text::texts(paths@);
    let mut i: usize = 0;
    assert(all.take(0).len() == 0);
    while i < paths.len()
        invariant
            i <= paths.len(),
            all == text::texts(paths@),
            text::texts(set@) == all_put(start, all.take(i as int)),
        decreases paths.len() - i,
    {
        proof {
            assert(all.take(i + 1).drop_last() =~= all.take(i as int));
            assert(all.take(i + 1).last() == paths@[i as int]@);
        }
        text_set::insert(set, paths[i].clone());
        i = i + 1;
    }
    assert(all.take(i as int) =~= all);
}

/// An ordered set with more texts.
pub open spec fn all_put(set: Seq<Seq<char>>, more: Seq<Seq<char>>) -> Seq<Seq<char>>
    decreases more.len(),
{
    if more.len() == 0 {
        set
    } else {
        text_set::with(all_put(set, more.drop_last()), more.last())
    }
}

/// A set with more texts is the set of all of them.
pub proof fn lemma_all_put(a: Seq<Seq<char>>, b: Seq<Seq<char>>)
    ensures
        all_put(text_set::set_of(a), b) == text_set::set_of(a + b),
    decreases b.len(),
{
    if b.len() == 0 {
        assert(a + b =~= a);
    } else {
        lemma_all_put(a, b.drop_last());
        assert((a + b).drop_last() =~= a + b.drop_last());
        assert((a + b).last() == b.last());
    }
}

/// The paths that have changed: the ordered set of those that three outputs list.
pub fn working_tree_changes(changed: &str, staged: &str, untracked: &str) -> (r: Vec<String>)
    ensures
        text::texts(r@) == text_set::set_of(
            listed_paths(changed@) + listed_paths(staged@) + listed_paths(untracked@),
        ),
{
    let ghost a = listed_paths(changed@);
    let ghost b = listed_paths(staged@);
    let ghost c = listed_paths(untracked@);
    let mut r: Vec<String> = Vec::new();
    assert(text::texts(r@) =~= text_set::set_of(Seq::empty()));
    put_all(&mut r, &parse_output_lines(changed));
    proof {
        lemma_all_put(Seq::empty(), a);
        assert(Seq::<Seq<char>>::empty() + a =~= a);
    }
    put_all(&mut r, &parse_output_lines(staged));
    proof {
        lemma_all_put(a, b);
    }
    put_all(&mut r, &parse_output_lines(untracked));
    proof {
        lemma_all_put(a + b, c);
    }
    r
}

fn copy_list(list: &Vec<String>) -> (r: Vec<String>)
    ensures
        text::texts(r@) == text::texts(list@),
{
    let r = list.clone();
    assert(text::texts(r@) =~= text::texts(list@));
    r
}

fn canonicalize_program(program: ProgramSpec) -> (r: ProgramSpec)
    ensures
        text::texts(r.can_modify@) == text::texts(program.can_modify@),
        text::texts(r.cannot_modify@) == with_all(
            text::texts(program.cannot_modify@),
            always_protected(),
        ),
{
    let mut cannot = program.cannot_modify;
    let patterns = protected_patterns();
    let ghost start = text::texts(cannot@);
    let ghost all = text::texts(patterns@);
    let mut i: usize = 0;
    assert(all.take(0).len() == 0);
    while i < patterns.len()
        invariant
            i <= patterns.len(),
            all == text::texts(patterns@),
            text::texts(cannot@) == with_all(start, all.take(i as int)),
        decreases patterns.len() - i,
    {
        proof {
            assert(all.take(i + 1).drop_last() =~= all.take(i as int));
            assert(all.take(i + 1).last() == patterns@[i as int]@);
        }
        if !text::is_listed(&cannot, patterns[i].as_str()) {
            let ghost before = cannot@;
            cannot.push(patterns[i].clone());
            proof {
                text::lemma_texts_push(before, cannot@.last());
            }
        }
        i = i + 1;
    }
    assert(all.take(i as int) =~= all);
    ProgramSpec { can_modify: program.can_modify, cannot_modify: cannot }
}

/// What comes of the files that were staged for a commit.
#[derive(Debug)]
pub enum StageVerdict {
    /// They may be committed.
    Commit,
    /// Some of them may not be changed: unstage everything.
    Unstage { message: String },
    /// There are none.
    Nothing { message: String },
}

impl EditableSurface {
    /// The patterns of files that a candidate may change.
    pub open spec fn can(&self) -> Seq<Seq<char>> {
        text::texts(self.program.can_modify@)
    }

    /// The patterns of files that a candidate may not change.
    pub open spec fn cannot(&self) -> Seq<Seq<char>> {
        text::texts(self.program.cannot_modify@)
    }

    /// The surface of two lists of patterns.
    pub fn new(editable_globs: Vec<String>, protected_globs: Vec<String>) -> (r: Self)
        ensures
            r.can() == text::texts(editable_globs@),
            r.cannot() == with_all(text::texts(protected_globs@), always_protected()),
    {
        EditableSurface {
            program: canonicalize_program(ProgramSpec::from_globs(editable_globs, protected_globs)),
        }
    }

    /// The surface of a program.
    pub fn from_program(program: &ProgramSpec) -> (r: Self)
        ensures
            r.can() == text::texts(program.can_modify@),
            r.cannot() == with_all(text::texts(program.cannot_modify@), always_protected()),
    {
        EditableSurface::new(copy_list(&program.can_modify), copy_list(&program.cannot_modify))
    }

    /// Whether a candidate may change a file.
    pub fn allows_path(&self, file_path: &str) -> (r: Result<bool, String>)
        ensures
            if usable(self.can()) {
                r == Ok::<bool, String>(allows(self.can(), self.cannot(), file_path@))
            } else {
                r matches Err(e) && tells_unusable(self.can(), e@)
            },
            covered(self.cannot(), file_path@) ==> r != Ok::<bool, String>(true),
    {
        let editable = self.program.is_editable(file_path)?;
        let protected = self.program.is_protected(file_path);
        proof {
            if guarded(self.cannot(), file_path@) {
                let i = choose|i: int|
                    0 <= i < self.cannot().len() && config::guards(
                        #[trigger] self.cannot()[i],
                        file_path@,
                    );
                assert(config::guards(self.program.cannot_modify@[i]@, file_path@));
            }
            if covered(self.cannot(), file_path@) {
                let i = choose|i: int|
                    0 <= i < self.cannot().len() && config::covers(
                        #[trigger] self.cannot()[i],
                        file_path@,
                    );
                assert(config::covers(self.program.cannot_modify@[i]@, file_path@));
            }
            if protected {
                let i = choose|i: int|
                    0 <= i < self.program.cannot_modify@.len() && config::guards(
                        (#[trigger] self.program.cannot_modify@[i])@,
                        file_path@,
                    );
                assert(config::guards(self.cannot()[i], file_path@));
            }
        }
        Ok(editable && !protected)
    }

    /// The paths that a candidate may not change, in order.
    pub fn violations_for_paths(&self, paths: &Vec<String>) -> (r: Result<Vec<String>, String>)
        ensures
            if paths@.len() == 0 || usable(self.can()) {
                r matches Ok(v) && text::texts(v@) == violations(
                    self.can(),
                    self.cannot(),
                    text::texts(paths@),
                )
            } else {
                r matches Err(e) && tells_unusable(self.can(), e@)
            },
            r matches Ok(v) && v@.len() == 0 ==> forall|i: int|
                0 <= i < paths@.len() ==> !covered(self.cannot(), #[trigger] text::texts(paths@)[i]),
    {
        let ghost all = text::texts(paths@);
        let mut r: Vec<String> = Vec::new();
        let mut i: usize = 0;
        proof {
            assert(all.take(0).len() == 0);
            assert(text::texts(r@) =~= Seq::<Seq<char>>::empty());
        }
        while i < paths.len()
            invariant
                i <= paths.len(),
                all == text::texts(paths@),
                i > 0 ==> usable(self.can()),
                text::texts(r@) == violations(self.can(), self.cannot(), all.take(i as int)),
                r@.len() == 0 ==> forall|j: int|
                    0 <= j < i ==> !covered(self.cannot(), #[trigger] all[j]),
            decreases paths.len() - i,
        {
            proof {
                assert(all.take(i + 1).drop_last() =~= all.take(i as int));
                assert(all.take(i + 1).last() == paths@[i as int]@);
            }
            if !self.allows_path(paths[i].as_str())? {
                let ghost before = r@;
                r.push(paths[i].clone());
                proof {
                    text::lemma_texts_push(before, r@.last());
                }
            }
            i = i + 1;
        }
        assert(all.take(i as int) =~= all);
        Ok(r)
    }

    /// The paths that are to be staged: those that a candidate may change, in order.
    pub fn paths_to_stage(&self, paths: &Vec<String>) -> (r: Result<Vec<String>, String>)
        ensures
            if paths@.len() == 0 || usable(self.can()) {
                r matches Ok(v) && text::texts(v@) == allowed(
                    self.can(),
                    self.cannot(),
                    text::texts(paths@),
                )
            } else {
                r matches Err(e) && tells_unusable(self.can(), e@)
            },
    {
        let ghost all = text::texts(paths@);
        let mut r: Vec<String> = Vec::new();
        let mut i: usize = 0;
        proof {
            assert(all.take(0).len() == 0);
            assert(text::texts(r@) =~= Seq::<Seq<char>>::empty());
        }
        while i < paths.len()
            invariant
                i <= paths.len(),
                all == text::texts(paths@),
                i > 0 ==> usable(self.can()),
                text::texts(r@) == allowed(self.can(), self.cannot(), all.take(i as int)),
            decreases paths.len() - i,
        {
            proof {
                assert(all.take(i + 1).drop_last() =~= all.take(i as int));
                assert(all.take(i + 1).last() == paths@[i as int]@);
            }
            if self.allows_path(paths[i].as_str())? {
                let ghost before = r@;
                r.push(paths[i].clone());
                proof {
                    text::lemma_texts_push(before, r@.last());
                }
            }
            i = i + 1;
        }
        assert(all.take(i as int) =~= all);
        Ok(r)
    }

    /// The staged paths that a candidate may not change; `output` lists the staged paths.
    pub fn validate_staged_files(&self, output: &str) -> (r: Result<Vec<String>, String>)
        ensures
            if listed_paths(output@).len() == 0 || usable(self.can()) {
                r matches Ok(v) && text::texts(v@) == violations(
                    self.can(),
                    self.cannot(),
                    listed_paths(output@),
                )
            } else {
                r matches Err(e) && tells_unusable(self.can(), e@)
            },
    {
        let paths = parse_output_lines(output);
        assert(text::texts(paths@).len() == paths@.len());
        self.violations_for_paths(&paths)
    }

    /// What comes of the files that were staged; `output` lists the staged paths.
    pub fn judge_staged(&self, output: &str) -> (r: Result<StageVerdict, String>)
        ensures
            ({
                let paths = listed_paths(output@);
                if paths.len() > 0 && !usable(self.can()) {
                    r matches Err(e) && tells_unusable(self.can(), e@)
                } else {
                    let bad = violations(self.can(), self.cannot(), paths);
                    if bad.len() > 0 {
                        r matches Ok(StageVerdict::Unstage { message }) && message@
                            == "staged files outside the editable surface: "@ + text::joined(
                            bad,
                            ", "@,
                        )
                    } else if paths.len() == 0 {
                        r matches Ok(StageVerdict::Nothing { message }) && message@
                            == "no changes to commit within the editable surface"@
                    } else {
                        r == Ok::<StageVerdict, String>(StageVerdict::Commit)
                    }
                }
            }),
    {
        let paths = parse_output_lines(output);
        assert(text::texts(paths@).len() == paths@.len());
        let bad = self.violations_for_paths(&paths)?;
        assert(text::texts(bad@).len() == bad@.len());
        if bad.len() > 0 {
            let mut message = "staged files outside the editable surface: ".to_owned();
            message.append(text::join(&bad, ", ").as_str());
            return Ok(StageVerdict::Unstage { message });
        }
        if paths.len() == 0 {
            return Ok(
                StageVerdict::Nothing {
                    message: "no changes to commit within the editable surface".to_owned(),
                },
            );
        }
        Ok(StageVerdict::Commit)
    }
}

proof fn lemma_with_all(list: Seq<Seq<char>>, more: Seq<Seq<char>>, x: Seq<char>)
    requires
        list.contains(x) || more.contains(x),
    ensures
        with_all(list, more).contains(x),
    decreases more.len(),
{
    if more.len() > 0 {
        let rest = more.drop_last();
        let before = with_all(list, rest);
        let after = with_all(list, more);
        if more.last() == x {
            if !before.contains(x) {
                assert(after == before.push(x));
                assert(after[before.len() as int] == x);
            }
        } else {
            if more.contains(x) {
                let k = choose|k: int| 0 <= k < more.len() && more[k] == x;
                assert(rest[k] == x);
            }
            lemma_with_all(list, rest, x);
            let k = choose|k: int| 0 <= k < before.len() && before[k] == x;
            assert(after[k] == x);
        }
    }
}

/// Whatever the program says, a file that one of the always protected patterns guards may not be
/// changed.
pub proof fn protected_files_stay_protected(
    can: Seq<Seq<char>>,
    cannot: Seq<Seq<char>>,
    pattern: Seq<char>,
    path: Seq<char>,
)
    requires
        always_protected().contains(pattern),
        config::guards(pattern, path),
    ensures
        !allows(can, with_all(cannot, always_protected()), path),
{
    let list = with_all(cannot, always_protected());
    lemma_with_all(cannot, always_protected(), pattern);
    let k = choose|k: int| 0 <= k < list.len() && list[k] == pattern;
    assert(config::guards(list[k], path));
}

/// Of paths each may be changed or is a violation, and what was picked to be staged holds no
/// violation.
pub proof fn staged_paths_hold_no_violation(
    can: Seq<Seq<char>>,
    cannot: Seq<Seq<char>>,
    paths: Seq<Seq<char>>,
)
    ensures
        violations(can, cannot, allowed(can, cannot, paths)).len() == 0,
        allowed(can, cannot, paths).len() + violations(can, cannot, paths).len() == paths.len(),
    decreases paths.len(),
{
    if paths.len() > 0 {
        let rest = paths.drop_last();
        staged_paths_hold_no_violation(can, cannot, rest);
        if allows(can, cannot, paths.last()) {
            let a = allowed(can, cannot, paths);
            assert(a.drop_last() =~= allowed(can, cannot, rest));
            assert(a.last() == paths.last());
        }
    }
}

/// Where no path is a violation, no path is a file that one of the always protected patterns
/// guards: a candidate that passes the check leaves the evaluation alone.
pub proof fn passing_candidates_leave_protected_files(
    can: Seq<Seq<char>>,
    cannot: Seq<Seq<char>>,
    pattern: Seq<char>,
    paths: Seq<Seq<char>>,
)
    requires
        always_protected().contains(pattern),
        violations(can, with_all(cannot, always_protected()), paths).len() == 0,
    ensures
        forall|i: int| 0 <= i < paths.len() ==> !config::guards(pattern, #[trigger] paths[i]),
    decreases paths.len(),
{
    if paths.len() > 0 {
        let rest = paths.drop_last();
        passing_candidates_leave_protected_files(can, cannot, pattern, rest);
        assert forall|i: int| 0 <= i < paths.len() implies !config::guards(
            pattern,
            #[trigger] paths[i],
        ) by {
            if i < rest.len() {
                assert(paths[i] == rest[i]);
            } else if config::guards(pattern, paths[i]) {
                protected_files_stay_protected(can, cannot, pattern, paths[i]);
            }
        }
    }
}

/// Whatever the program says, a file of the evaluation is covered by a pattern that no candidate
/// may change: a surface that `EditableSurface::new` made never allows it.
pub proof fn evaluation_stays_closed(cannot: Seq<Seq<char>>, path: Seq<char>)
    requires
        of_evaluation(path),
    ensures
        covered(with_all(cannot, always_protected()), path),
{
    reveal_strlit(".polyresearch/");
    reveal_strlit(".polyresearch-node.toml");
    reveal_strlit("PROGRAM.md");
    reveal_strlit("PREPARE.md");
    reveal_strlit("/");
    reveal_strlit("**");
    let a = always_protected();
    let k: int = if text::begins(path, ".polyresearch/"@) {
        0
    } else if path == ".polyresearch-node.toml"@ {
        1
    } else if path == "PROGRAM.md"@ {
        2
    } else {
        3
    };
    let pattern = a[k];
    let glob = config::as_glob(pattern);
    let last = pattern.skip(pattern.len() - 1);
    assert(last[0] == pattern.last());
    if k == 0 {
        assert(last =~= "/"@);
        let n = glob.len() as int;
        assert(glob =~= pattern + "**"@);
        assert(glob.take(n - 2) =~= pattern);
        assert(glob.skip(n - 3) =~= seq!['/', '*', '*']);
        assert forall|i: int| 0 <= i < n - 3 implies #[trigger] glob.take(n - 3)[i]
            == pattern[i] by {}
        assert(globs::literal(glob.take(n - 3)));
        assert(globs::whole_directory(glob));
    } else {
        assert(pattern == path);
        assert(last != "/"@) by {
            assert("/"@[0] == '/');
        }
        assert(globs::literal(glob));
    }
    assert(config::covers(pattern, path));
    lemma_with_all(cannot, a, pattern);
    let list = with_all(cannot, a);
    let j = choose|j: int| 0 <= j < list.len() && list[j] == pattern;
    assert(config::covers(list[j], path));
}

} // verus!
