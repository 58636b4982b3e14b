//! Sets of path patterns. Patterns and paths are read as on the platform that the crate is built
//! for: where the backslash separates the parts of a path, it escapes nothing in a pattern.
use crate::text;
use globset::{Glob, GlobSet, GlobSetBuilder};
use vstd::prelude::*;

verus! {

/// Patterns that are being gathered.
#[verifier::external_type_specification]
#[verifier::external_body]
pub struct ExGlobSetBuilder(globset::GlobSetBuilder);

/// Patterns that paths are matched with.
#[verifier::external_type_specification]
#[verifier::external_body]
pub struct ExGlobSet(globset::GlobSet);

/// The patterns that were gathered.
pub uninterp spec fn gathered(b: GlobSetBuilder) -> Seq<Seq<char>>;

/// The patterns of a set.
pub uninterp spec fn members(s: GlobSet) -> Seq<Seq<char>>;

/// `globset::Glob::new` accepts the text as a pattern.
pub uninterp spec fn is_pattern(pattern: Seq<char>) -> bool;

/// `globset::GlobSetBuilder::build` makes a set of these patterns; it refuses patterns that take
/// too much room on the platform that the crate is built for.
pub uninterp spec fn fits(patterns: Seq<Seq<char>>) -> bool;

/// The pattern, as a glob, matches the path.
pub uninterp spec fn matches_path(pattern: Seq<char>, path: Seq<char>) -> bool;

/// A text without the characters that have a meaning in patterns.
pub open spec fn literal(s: Seq<char>) -> bool {
    s.len() > 0 && forall|i: int|
        0 <= i < s.len() ==> #[trigger] s[i] != '?' && s[i] != '*' && s[i] != '[' && s[i] != '{'
            && s[i] != '}' && s[i] != '\\'
}

/// The pattern stands for all that is in one directory.
pub open spec fn whole_directory(pattern: Seq<char>) -> bool {
    pattern.len() > 3 && literal(pattern.take(pattern.len() - 3)) && pattern.skip(
        pattern.len() - 3,
    ) == seq!['/', '*', '*']
}

/// The pattern is a path or stands for all that is in one directory.
pub open spec fn simple(pattern: Seq<char>) -> bool {
    literal(pattern) || whole_directory(pattern)
}

/// The pattern is the path, or stands for all that is in a directory that holds it.
pub open spec fn names(pattern: Seq<char>, path: Seq<char>) -> bool {
    ||| literal(pattern) && path == pattern
    ||| whole_directory(pattern) && text::begins(path, pattern.take(pattern.len() - 2))
}

/// Starts gathering patterns, by `globset::GlobSetBuilder::new`: there are none yet.
#[verifier::external_body]
fn gather() -> (r: GlobSetBuilder)
    ensures
        gathered(r) == Seq::<Seq<char>>::empty(),
{
    GlobSetBuilder::new()
}

/// Adds a pattern by `globset::GlobSetBuilder::add`, where `globset::Glob::new` accepts it. It
/// accepts every pattern that is a path or stands for all that is in a directory: of the
/// characters, only those that have a meaning can be at fault.
#[verifier::external_body]
fn add_pattern(b: &mut GlobSetBuilder, pattern: &str) -> (r: bool)
    ensures
        r == is_pattern(pattern@),
        simple(pattern@) ==> r,
        gathered(*final(b)) == (if r {
            gathered(*old(b)).push(pattern@)
        } else {
            gathered(*old(b))
        }),
{
    match Glob::new(pattern) {
        Ok(glob) => {
            b.add(glob);
            true
        },
        Err(_) => false,
    }
}

/// Makes a set of the patterns that were gathered, by `globset::GlobSetBuilder::build`, or says why
/// it cannot be made. Patterns that are paths or stand for all that is in a directory are kept as
/// texts and prefixes, so that a set of these is always made. What the reason says is not stated.
#[verifier::external_body]
fn close(b: &GlobSetBuilder) -> (r: Result<GlobSet, String>)
    ensures
        match r {
            Ok(s) => fits(gathered(*b)) && members(s) == gathered(*b),
            Err(_) => !fits(gathered(*b)),
        },
        (forall|i: int| 0 <= i < gathered(*b).len() ==> simple(#[trigger] gathered(*b)[i])) ==> r
            is Ok,
{
    b.build().map_err(|error| error.to_string())
}

/// Whether a pattern of the set matches the path, by `globset::GlobSet::is_match`. A pattern that is
/// the path matches it, and one that stands for all that is in a directory matches what is in it.
#[verifier::external_body]
pub(crate) fn is_match(s: &GlobSet, path: &str) -> (r: bool)
    ensures
        r == (exists|i: int|
            0 <= i < members(*s).len() && matches_path(#[trigger] members(*s)[i], path@)),
        (exists|i: int| 0 <= i < members(*s).len() && names(#[trigger] members(*s)[i], path@)) ==> r,
{
    s.is_match(path)
}

/// The first text from `i` on that is no pattern.
pub open spec fn first_bad(patterns: Seq<Seq<char>>, i: int) -> Option<int>
    decreases patterns.len() - i,
{
    if i >= patterns.len() {
        None
    } else if !is_pattern(patterns[i]) {
        Some(i)
    } else {
        first_bad(patterns, i + 1)
    }
}

/// What is found is the first text that is no pattern.
pub proof fn lemma_first_bad(patterns: Seq<Seq<char>>, i: int)
    requires
        0 <= i,
    ensures
        match first_bad(patterns, i) {
            Some(k) => i <= k < patterns.len() && !is_pattern(patterns[k]),
            None => forall|j: int| i <= j < patterns.len() ==> is_pattern(#[trigger] patterns[j]),
        },
    decreases patterns.len() - i,
{
    if i < patterns.len() && is_pattern(patterns[i]) {
        lemma_first_bad(patterns, i + 1);
    }
}

/// One of the patterns matches the path.
pub open spec fn one_matches(patterns: Seq<Seq<char>>, path: Seq<char>) -> bool {
    exists|i: int| 0 <= i < patterns.len() && matches_path(#[trigger] patterns[i], path)
}

/// Why no set of patterns could be made.
#[derive(Debug)]
pub enum GlobError {
    /// The text at this position is no pattern.
    Pattern(usize),
    /// The patterns take too much room.
    Room(String),
}

/// Makes a set of patterns, or says which of them is none.
pub fn compile(patterns: &Vec<String>) -> (r: Result<GlobSet, GlobError>)
    ensures
        match first_bad(text::texts(patterns@), 0) {
            Some(i) => r matches Err(GlobError::Pattern(k)) && k == i,
            None => if fits(text::texts(patterns@)) {
                r matches Ok(s) && members(s) == text::texts(patterns@)
            } else {
                r matches Err(GlobError::Room(_))
            },
        },
        (forall|i: int|
            0 <= i < patterns@.len() ==> simple(#[trigger] text::texts(patterns@)[i])) ==> r is Ok,
{
    let ghost all = text::texts(patterns@);
    let mut b = gather();
    let mut i: usize = 0;
    assert(all.take(0) =~= Seq::<Seq<char>>::empty());
    while i < patterns.len()
        invariant
            i <= patterns.len(),
            all == text::texts(patterns@),
            gathered(b) == all.take(i as int),
            first_bad(all, 0) == first_bad(all, i as int),
        decreases patterns.len() - i,
    {
        assert(all[i as int] == patterns@[i as int]@);
        if !add_pattern(&mut b, patterns[i].as_str()) {
            return Err(GlobError::Pattern(i));
        }
        assert(all.take(i + 1) =~= all.take(i as int).push(all[i as int]));
        i = i + 1;
    }
    assert(all.take(i as int) =~= all);
    match close(&b) {
        Ok(s) => Ok(s),
        Err(e) => Err(GlobError::Room(e)),
    }
}

} // verus!
