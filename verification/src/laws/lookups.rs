//! What holds of what is looked up, counted and listed.
use crate::commands::audit;
use crate::commands::commit;
use crate::commands::contribute;
use crate::commands::decide;
use crate::commands::duties;
use crate::commands::generate;
use crate::commands::guards;
use crate::commands::lead;
use crate::commands::prune;
use crate::commands::review;
use crate::commands::submit;
use crate::config::ProtocolConfig;
use crate::json;
use crate::laws::decisions;
use crate::ledger::Ledger;
use crate::metric;
use crate::metric::Metric;
use crate::state::{
    AttemptRecord, PullRequestState, RepositoryState, ReviewRecord, ThesisState,
};
use crate::text;
use crate::text_set;
use crate::time::Timestamp;
use crate::validation;
use crate::validation::{AuditFinding, AuditSeverity};
use vstd::prelude::*;

verus! {

proof fn lemma_attempt_at(a: Seq<AttemptRecord>, branch: Seq<char>, i: int)
    requires
        0 <= i <= a.len(),
    ensures
        decide::attempt_at(a, branch, i) matches Some(k) ==> i <= k < a.len() && a[k].branch@
            == branch && forall|j: int| i <= j < k ==> (#[trigger] a[j]).branch@ != branch,
        decide::attempt_at(a, branch, i) is None ==> forall|j: int|
            i <= j < a.len() ==> (#[trigger] a[j]).branch@ != branch,
    decreases a.len() - i,
{
    if i < a.len() && a[i].branch@ != branch {
        lemma_attempt_at(a, branch, i + 1);
    }
}

/// A candidate stands for the first attempt that was made on its branch; without one it stands for
/// nothing.
pub proof fn a_branch_stands_for_its_first_attempt(
    t: &ThesisState,
    branch: &str,
    r: Result<&AttemptRecord, String>,
)
    requires
        call_ensures(decide::attempt_of, (t, branch), r),
    ensures
        r matches Ok(a) ==> exists|k: int|
            0 <= k < t.attempts@.len() && (#[trigger] t.attempts@[k]) == *a && a.branch@ == branch@
                && forall|j: int|
                0 <= j < k ==> (#[trigger] t.attempts@[j]).branch@ != branch@,
        r is Err ==> forall|j: int|
            0 <= j < t.attempts@.len() ==> (#[trigger] t.attempts@[j]).branch@ != branch@,
{
    lemma_attempt_at(t.attempts@, branch@, 0);
    if let Some(k) = decide::attempt_at(t.attempts@, branch@, 0) {
        assert(t.attempts@[k].branch@ == branch@);
    }
}

/// The metric is that of one of the reviews.
pub open spec fn one_reviewed(reviews: Seq<ReviewRecord>, m: Metric) -> bool {
    exists|i: int| 0 <= i < reviews.len() && (#[trigger] reviews[i]).metric == m
}

proof fn lemma_extremes(reviews: Seq<ReviewRecord>)
    ensures
        decide::extremes(reviews) is None <==> reviews.len() == 0,
        decide::extremes(reviews) matches Some((low, high)) ==> {
            &&& one_reviewed(reviews, low)
            &&& one_reviewed(reviews, high)
            &&& forall|i: int|
                0 <= i < reviews.len() ==> !metric::less(
                    (#[trigger] reviews[i]).metric.bits,
                    low.bits,
                ) && !metric::less(high.bits, reviews[i].metric.bits)
            &&& forall|i: int|
                0 <= i < reviews.len() && !metric::not_a_number(
                    (#[trigger] reviews[i]).metric.bits,
                ) ==> !metric::not_a_number(low.bits) && !metric::not_a_number(high.bits)
        },
    decreases reviews.len(),
{
    if reviews.len() > 0 {
        let rest = reviews.drop_last();
        lemma_extremes(rest);
        assert(reviews[reviews.len() - 1] == reviews.last());
        if let Some((low, high)) = decide::extremes(rest) {
            let a = choose|i: int| 0 <= i < rest.len() && (#[trigger] rest[i]).metric == low;
            assert(reviews[a] == rest[a]);
            let b = choose|i: int| 0 <= i < rest.len() && (#[trigger] rest[i]).metric == high;
            assert(reviews[b] == rest[b]);
            assert(one_reviewed(reviews, low));
            assert(one_reviewed(reviews, high));
            assert(forall|i: int| 0 <= i < rest.len() ==> (#[trigger] reviews[i]) == rest[i]);
        }
    }
}

/// The range of the reviews' metrics goes from the least of them to the greatest; there is none
/// only where there is no review.
pub proof fn the_range_holds_all_reviews(reviews: Vec<ReviewRecord>, r: Option<(Metric, Metric)>)
    requires
        call_ensures(decide::metric_range, (&reviews,), r),
    ensures
        r is None <==> reviews@.len() == 0,
        r matches Some((low, high)) ==> {
            &&& one_reviewed(reviews@, low)
            &&& one_reviewed(reviews@, high)
            &&& forall|i: int|
                0 <= i < reviews@.len() ==> !metric::less(
                    (#[trigger] reviews@[i]).metric.bits,
                    low.bits,
                ) && !metric::less(high.bits, reviews@[i].metric.bits)
        },
{
    lemma_extremes(reviews@);
}

/// There are enough reviews exactly where there are as many as are required.
pub proof fn when_there_are_enough_reviews(
    config: ProtocolConfig,
    p: PullRequestState,
    r: Result<(), String>,
)
    requires
        call_ensures(decide::require_reviews, (&config, &p), r),
    ensures
        r is Ok <==> p.reviews@.len() >= config.required_confirmations,
{
}

/// The rejections since a claim are the closed candidates that were turned down since.
pub proof fn how_rejections_are_counted(
    t: ThesisState,
    prs: Vec<PullRequestState>,
    since: Option<Timestamp>,
    r: usize,
    s: usize,
)
    requires
        call_ensures(decide::count_prior_rejections, (&t, since), r),
        call_ensures(duties::count_rejections, (&prs, since), s),
    ensures
        r == decisions::turned_down_since(t.pull_requests@, since).len(),
        s == decisions::turned_down_since(prs@, since).len(),
{
    decisions::rejections_are_counted(t.pull_requests@, since);
    decisions::rejections_are_counted(prs@, since);
}

/// A review is claimed by a node that said so.
pub proof fn who_claimed_a_review(p: PullRequestState, node: &str, r: bool)
    requires
        call_ensures(duties::has_claimed_review, (&p, node), r),
    ensures
        r <==> exists|i: int|
            0 <= i < p.review_claims@.len() && (#[trigger] p.review_claims@[i]).node@ == node@,
{
}

proof fn lemma_word_ahead(w: Seq<char>, rest: Seq<char>)
    requires
        w.len() > 0,
        forall|i: int| 0 <= i < w.len() ==> !text::is_space(#[trigger] w[i]),
        rest.len() > 0 ==> text::is_space(rest[0]),
    ensures
        text::words_of(w + rest) == seq![w] + text::words_of(rest),
{
    let s = w + rest;
    assert(s[0] == w[0]);
    text::lemma_trimmed_already(seq![w[0]]);
    assert(text::trimmed_start(s) == s);
    lemma_length(w, rest);
    assert(s.take(w.len() as int) =~= w);
    assert(s.skip(w.len() as int) =~= rest);
}

proof fn lemma_length(w: Seq<char>, rest: Seq<char>)
    requires
        forall|i: int| 0 <= i < w.len() ==> !text::is_space(#[trigger] w[i]),
        rest.len() > 0 ==> text::is_space(rest[0]),
    ensures
        text::word_length(w + rest) == w.len(),
    decreases w.len(),
{
    let s = w + rest;
    if w.len() > 0 {
        let t = w.drop_first();
        assert forall|i: int| 0 <= i < t.len() implies !text::is_space(#[trigger] t[i]) by {
            assert(t[i] == w[i + 1]);
        }
        lemma_length(t, rest);
        assert(s.drop_first() =~= t + rest);
        assert(s[0] == w[0]);
    } else {
        assert(s =~= rest);
    }
}

proof fn lemma_blank_ahead(s: Seq<char>)
    ensures
        text::words_of(seq![' '] + s) == text::words_of(s),
{
    let t = seq![' '] + s;
    assert(t.drop_first() =~= s);
    assert(text::trimmed_start(t) == text::trimmed_start(s));
}

proof fn lemma_joined_words(words: Seq<Seq<char>>)
    requires
        forall|i: int| 0 <= i < words.len() ==> (#[trigger] words[i]).len() > 0,
        forall|i: int, k: int|
            0 <= i < words.len() && 0 <= k < words[i].len() ==> !text::is_space(
                #[trigger] words[i][k],
            ),
    ensures
        text::words_of(text::joined(words, " "@)) == words,
    decreases words.len(),
{
    reveal_strlit(" ");
    if words.len() == 0 {
        assert(text::words_of(Seq::<char>::empty()) =~= words);
    } else {
        let w = words[0];
        let more = words.drop_first();
        assert(words =~= seq![w] + more);
        if more.len() == 0 {
            assert(words =~= seq![w]);
            assert(text::joined(words, " "@) == w);
            lemma_word_ahead(w, Seq::empty());
            assert(w + Seq::<char>::empty() =~= w);
            assert(text::words_of(Seq::<char>::empty()) =~= Seq::<Seq<char>>::empty());
            assert(seq![w] + Seq::<Seq<char>>::empty() =~= words);
        } else {
            assert forall|i: int| 0 <= i < more.len() implies (#[trigger] more[i]).len() > 0 by {
                assert(more[i] == words[i + 1]);
            }
            assert forall|i: int, k: int|
                0 <= i < more.len() && 0 <= k < more[i].len() implies !text::is_space(
                #[trigger] more[i][k],
            ) by {
                assert(more[i][k] == words[i + 1][k]);
            }
            lemma_joined_words(more);
            let j = text::joined(more, " "@);
            lemma_first_joined(w, more);
            assert forall|i: int| 0 <= i < w.len() implies !text::is_space(#[trigger] w[i]) by {
                assert(w[i] == words[0][i]);
            }
            let rest = seq![' '] + j;
            lemma_word_ahead(w, rest);
            lemma_blank_ahead(j);
            assert(text::joined(words, " "@) =~= w + rest);
        }
    }
}

proof fn lemma_first_joined(a: Seq<char>, more: Seq<Seq<char>>)
    requires
        more.len() > 0,
    ensures
        text::joined(seq![a] + more, " "@) == a + " "@ + text::joined(more, " "@),
    decreases more.len(),
{
    let all = seq![a] + more;
    assert(all.last() == more.last());
    if more.len() == 1 {
        assert(all.drop_last() =~= seq![a]);
        assert(text::joined(seq![a], " "@) == a);
        assert(text::joined(all, " "@) =~= a + " "@ + text::joined(more, " "@));
    } else {
        assert(all.drop_last() =~= seq![a] + more.drop_last());
        lemma_first_joined(a, more.drop_last());
        assert(text::joined(all, " "@) =~= a + " "@ + text::joined(more, " "@));
    }
}

/// Titles are compared by their words: those of the characters that are kept, with a blank for each
/// other one, and one blank between two words.
pub proof fn what_a_title_is_compared_by(
    chars: Vec<char>,
    kept: Vec<bool>,
    blanked: &str,
    words: Vec<String>,
    sep: &str,
    joined: String,
    r: String,
    s: &str,
    again: Vec<String>,
)
    requires
        chars@.len() == kept@.len(),
        call_ensures(generate::keep_words, (&chars, &kept), r),
        blanked@.len() == chars@.len(),
        forall|i: int|
            0 <= i < chars@.len() ==> #[trigger] blanked@[i] == (if kept@[i] {
                chars@[i]
            } else {
                ' '
            }),
        call_ensures(text::split_whitespace, (blanked,), words),
        sep@ == " "@,
        call_ensures(text::join, (&words, sep), joined),
        s@ == r@,
        call_ensures(text::split_whitespace, (s,), again),
    ensures
        r@ == joined@,
        text::texts(again@) == text::texts(words@),
{
    assert(generate::spaced(chars@, kept@) =~= blanked@);
    crate::laws::texts::words_hold_all_but_the_blanks(blanked, words);
    let all = text::texts(words@);
    assert(all.len() == words@.len());
    assert forall|i: int| 0 <= i < all.len() implies (#[trigger] all[i]).len() > 0 by {
        assert(all[i] == words@[i]@);
    }
    assert forall|i: int, k: int| 0 <= i < all.len() && 0 <= k < all[i].len() implies !text::is_space(
        #[trigger] all[i][k],
    ) by {
        assert(words@[i]@[k] == all[i][k]);
    }
    lemma_joined_words(all);
}

/// The theses with the same title, in their order.
pub open spec fn titled(title: Seq<char>) -> spec_fn(ThesisState) -> bool {
    |t: ThesisState| generate::normalized(t.issue.title@) == generate::normalized(title)
}

proof fn lemma_same_titles(theses: Seq<ThesisState>, title: Seq<char>)
    ensures
        generate::same_titles(theses, title) == theses.filter(titled(title)),
    decreases theses.len(),
{
    reveal(Seq::filter);
    if theses.len() > 0 {
        lemma_same_titles(theses.drop_last(), title);
    }
}

/// A thesis is a duplicate exactly where its title compares equal to the proposed one.
pub proof fn which_titles_are_duplicates(
    s: &RepositoryState,
    title: &str,
    wanted: String,
    i: int,
    other: &str,
    found: String,
    r: Vec<&ThesisState>,
)
    requires
        call_ensures(generate::duplicate_titles, (s, title), r),
        call_ensures(generate::normalize_title, (title,), wanted),
        0 <= i < s.theses@.len(),
        other@ == s.theses@[i].issue.title@,
        call_ensures(generate::normalize_title, (other,), found),
    ensures
        (exists|k: int| 0 <= k < r@.len() && *(#[trigger] r@[k]) == s.theses@[i]) <==> found@
            == wanted@,
        r@.len() <= s.theses@.len(),
{
    let t = s.theses@[i];
    let all = r@.map_values(|t: &ThesisState| *t);
    let f = titled(title@);
    lemma_same_titles(s.theses@, title@);
    s.theses@.lemma_filter_len(f);
    assert(all.len() == r@.len());
    if found@ == wanted@ {
        assert(f(t));
        s.theses@.lemma_filter_contains(f, i);
        assert(all.contains(t));
        let k = choose|k: int| 0 <= k < all.len() && all[k] == t;
        assert(*r@[k] == t);
    }
    if exists|k: int| 0 <= k < r@.len() && *(#[trigger] r@[k]) == t {
        let k = choose|k: int| 0 <= k < r@.len() && *(#[trigger] r@[k]) == t;
        assert(all[k] == t);
        s.theses@.lemma_filter_pred(f, k);
    }
}

/// Work goes on only with a ledger that was read and is current.
pub proof fn work_goes_on_with_a_current_ledger(
    ledger: Result<Ledger, String>,
    s: RepositoryState,
    current: bool,
    r: Result<Ledger, String>,
)
    requires
        call_ensures(guards::ensure_current_ledger, (ledger, &s), r),
        ledger matches Ok(l) ==> call_ensures(Ledger::is_current, (&l, &s), current),
    ensures
        r is Ok <==> ledger is Ok && current,
        r is Ok ==> r->Ok_0 == ledger->Ok_0,
{
}

/// The commit of a candidate is its head, where the host tells it.
pub proof fn which_commit_is_meant(
    p: PullRequestState,
    number: u64,
    r: String,
    s: Result<String, String>,
)
    requires
        call_ensures(lead::candidate_sha, (&p,), r),
        call_ensures(review::reviewed_sha, (&p, number), s),
    ensures
        p.pr.head_ref_oid matches Some(h) ==> r@ == h@ && s is Ok && s->Ok_0@ == h@,
        p.pr.head_ref_oid is None ==> r@.len() == 0 && s is Err,
{
}

/// A thesis is over exactly where it was resolved or rejected.
pub proof fn when_a_thesis_is_over(s: RepositoryState, number: u64, r: bool)
    requires
        call_ensures(prune::is_terminal, (&s, number), r),
    ensures
        r <==> exists|i: int|
            0 <= i < s.theses@.len() && (#[trigger] s.theses@[i]).issue.number == number && (
            s.theses@[i].phase is Resolved || s.theses@[i].phase is Rejected),
{
}

proof fn lemma_registered(lines: Seq<Seq<char>>, path: Seq<char>)
    ensures
        prune::registered(lines).contains(path) <==> exists|i: int|
            0 <= i < lines.len() && #[trigger] lines[i] == "worktree "@ + path,
    decreases lines.len(),
{
    if lines.len() > 0 {
        let rest = lines.drop_last();
        let w = "worktree "@;
        let last = lines.last();
        let r = prune::registered(rest);
        let all = prune::registered(lines);
        lemma_registered(rest, path);
        if all.contains(path) {
            let k = choose|k: int| 0 <= k < all.len() && all[k] == path;
            if k < r.len() {
                assert(r[k] == path);
                let i = choose|i: int| 0 <= i < rest.len() && #[trigger] rest[i] == w + path;
                assert(lines[i] == rest[i]);
            } else {
                assert(last =~= w + last.skip(w.len() as int)) by {
                    assert(last.take(w.len() as int) == w);
                    assert(last =~= last.take(w.len() as int) + last.skip(w.len() as int));
                }
                assert(lines[lines.len() - 1] == w + path);
            }
        }
        if exists|i: int| 0 <= i < lines.len() && #[trigger] lines[i] == w + path {
            let i = choose|i: int| 0 <= i < lines.len() && #[trigger] lines[i] == w + path;
            if i < rest.len() {
                assert(rest[i] == w + path);
                let k = choose|k: int| 0 <= k < r.len() && r[k] == path;
                assert(all[k] == path);
            } else {
                assert(last == w + path);
                assert(last.take(w.len() as int) =~= w);
                assert(last.skip(w.len() as int) =~= path);
                assert(all.last() == path);
                assert(all[all.len() - 1] == path);
            }
        }
    }
}

/// A directory is registered exactly where a line tells so.
pub proof fn which_directories_are_registered(
    output: &str,
    lines: Vec<String>,
    path: Seq<char>,
    r: Vec<String>,
)
    requires
        call_ensures(prune::registered_worktree_paths, (output,), r),
        call_ensures(text::lines, (output,), lines),
    ensures
        (exists|k: int| 0 <= k < r@.len() && (#[trigger] r@[k])@ == path) <==> (exists|i: int|
            0 <= i < lines@.len() && (#[trigger] lines@[i])@ == "worktree "@ + path),
{
    let all = text::texts(lines@);
    let found = text::texts(r@);
    assert(all.len() == lines@.len());
    assert(found.len() == r@.len());
    lemma_registered(all, path);
    if exists|k: int| 0 <= k < r@.len() && (#[trigger] r@[k])@ == path {
        let k = choose|k: int| 0 <= k < r@.len() && (#[trigger] r@[k])@ == path;
        assert(found[k] == path);
        let i = choose|i: int| 0 <= i < all.len() && #[trigger] all[i] == "worktree "@ + path;
        assert(lines@[i]@ == all[i]);
    }
    if exists|i: int| 0 <= i < lines@.len() && (#[trigger] lines@[i])@ == "worktree "@ + path {
        let i = choose|i: int|
            0 <= i < lines@.len() && (#[trigger] lines@[i])@ == "worktree "@ + path;
        assert(all[i] == "worktree "@ + path);
        let k = choose|k: int| 0 <= k < found.len() && found[k] == path;
        assert(r@[k]@ == path);
    }
}

/// The lines that are not empty.
pub open spec fn not_empty() -> spec_fn(Seq<char>) -> bool {
    |l: Seq<char>| l.len() > 0
}

proof fn lemma_full_lines(lines: Seq<Seq<char>>)
    ensures
        commit::full_lines(lines) == lines.filter(not_empty()),
    decreases lines.len(),
{
    reveal(Seq::filter);
    if lines.len() > 0 {
        lemma_full_lines(lines.drop_last());
    }
}

/// Each line that is not empty is listed, in its order.
pub proof fn full_lines_are_listed(output: &str, lines: Vec<String>, r: Vec<String>)
    requires
        call_ensures(commit::parse_lines, (output,), r),
        call_ensures(text::lines, (output,), lines),
    ensures
        text::texts(r@) == text::texts(lines@).filter(|l: Seq<char>| l.len() > 0),
{
    lemma_full_lines(text::texts(lines@));
    assert(not_empty() =~= |l: Seq<char>| l.len() > 0);
}

/// A path has changed exactly where one of the three lists tells so, and it is told once, in order.
pub proof fn what_has_changed(
    changed: &str,
    untracked: &str,
    staged: &str,
    a: Vec<String>,
    b: Vec<String>,
    c: Vec<String>,
    r: Vec<String>,
    path: Seq<char>,
)
    requires
        call_ensures(commit::changed_paths, (changed, untracked, staged), r),
        call_ensures(commit::parse_lines, (changed,), a),
        call_ensures(commit::parse_lines, (untracked,), b),
        call_ensures(commit::parse_lines, (staged,), c),
    ensures
        text::texts(r@).contains(path) <==> text::texts(a@).contains(path) || text::texts(
            b@,
        ).contains(path) || text::texts(c@).contains(path),
        forall|i: int, j: int|
            0 <= i < j < r@.len() ==> text_set::precedes(
                (#[trigger] r@[i])@,
                (#[trigger] r@[j])@,
            ),
{
    let x = text::texts(a@);
    let y = text::texts(b@);
    let z = text::texts(c@);
    text_set::set_is_ordered_and_complete(x + y + z);
    if x.contains(path) {
        let k = choose|k: int| 0 <= k < x.len() && x[k] == path;
        assert((x + y + z)[k] == path);
    }
    if y.contains(path) {
        let k = choose|k: int| 0 <= k < y.len() && y[k] == path;
        assert((x + y + z)[x.len() + k] == path);
    }
    if z.contains(path) {
        let k = choose|k: int| 0 <= k < z.len() && z[k] == path;
        assert((x + y + z)[x.len() + y.len() + k] == path);
    }
    if (x + y + z).contains(path) {
        let k = choose|k: int| 0 <= k < (x + y + z).len() && (x + y + z)[k] == path;
        if k < x.len() {
            assert(x[k] == path);
        } else if k < x.len() + y.len() {
            assert(y[k - x.len()] == path);
        } else {
            assert(z[k - x.len() - y.len()] == path);
        }
    }
    let all = text::texts(r@);
    assert(all.len() == r@.len());
    assert forall|i: int, j: int| 0 <= i < j < r@.len() implies text_set::precedes(
        (#[trigger] r@[i])@,
        (#[trigger] r@[j])@,
    ) by {
        assert(all[i] == r@[i]@);
        assert(all[j] == r@[j]@);
    }
}

/// A commit is told by its thesis and by what was said of it, or by the thesis's title.
pub proof fn how_a_commit_is_told(
    t: ThesisState,
    number: u64,
    given: String,
    r: String,
    s: String,
)
    requires
        call_ensures(commit::commit_message, (&t, number, &Some(given)), r),
        call_ensures(commit::commit_message, (&t, number, &None), s),
    ensures
        r@ == "thesis/"@ + text::decimal(number as nat) + ": "@ + given@,
        s@ == "thesis/"@ + text::decimal(number as nat) + ": "@ + t.issue.title@,
{
}

proof fn lemma_hex(a: Seq<u8>, i: int)
    requires
        0 <= i < a.len(),
    ensures
        review::hex_of(a).len() == 2 * a.len(),
        review::hex_of(a)[2 * i] == json::hex_digit((a[i] / 16) as nat),
        review::hex_of(a)[2 * i + 1] == json::hex_digit((a[i] % 16) as nat),
    decreases a.len(),
{
    let rest = a.drop_last();
    if rest.len() > 0 {
        lemma_hex(rest, if i < rest.len() {
            i
        } else {
            0
        });
        if i < rest.len() {
            assert(rest[i] == a[i]);
        }
    } else {
        assert(review::hex_of(rest).len() == 0);
    }
}

/// Bytes are written by two digits each: the place of the digit among the sixteen gives the byte
/// back.
pub proof fn bytes_are_had_back_from_digits(a: Vec<u8>, r: String, i: int)
    requires
        call_ensures(review::to_hex, (&a,), r),
        0 <= i < a@.len(),
    ensures
        r@.len() == 2 * a@.len(),
        ({
            let high = r@[2 * i];
            let low = r@[2 * i + 1];
            &&& '0' <= high <= '9' || 'a' <= high <= 'f'
            &&& '0' <= low <= '9' || 'a' <= low <= 'f'
            &&& a@[i] == 16 * (if high <= '9' {
                high as u32 - '0' as u32
            } else {
                high as u32 - 'a' as u32 + 10
            }) + (if low <= '9' {
                low as u32 - '0' as u32
            } else {
                low as u32 - 'a' as u32 + 10
            })
        }),
{
    lemma_hex(a@, i);
}

/// The range of a candidate's commits starts where the host's branch stands, where that was
/// published.
pub proof fn where_a_candidate_starts(branch: &str, r: String, s: String)
    requires
        call_ensures(submit::diff_ref, (branch, true), r),
        call_ensures(submit::diff_ref, (branch, false), s),
    ensures
        s@ == branch@ + "...HEAD"@,
        r@ == "origin/"@ + s@,
{
    assert(r@ =~= "origin/"@ + s@);
}

/// The time for which a thesis is left alone after a crash doubles with each more, up to an hour.
pub proof fn the_time_after_crashes_doubles(base: u64, n: usize, first: u64, r: u64, s: u64)
    requires
        0 < n < usize::MAX,
        call_ensures(contribute::cooldown_secs, (base, 1), first),
        call_ensures(contribute::cooldown_secs, (base, n), r),
        call_ensures(contribute::cooldown_secs, (base, (n + 1) as usize), s),
    ensures
        first == (if base < 3_600 {
            base
        } else {
            3_600
        }),
        s == (if 2 * r < 3_600 {
            2 * r
        } else if base == 0 {
            0
        } else {
            3_600
        }),
{
    lemma_doubled(base as int, (n - 1) as nat);
    reveal_with_fuel(contribute::doubled, 2);
}

proof fn lemma_doubled(base: int, n: nat)
    requires
        base >= 0,
    ensures
        contribute::doubled(base, n) >= base,
        base == 0 ==> contribute::doubled(base, n) == 0,
    decreases n,
{
    if n > 0 {
        lemma_doubled(base, (n - 1) as nat);
    }
}

proof fn lemma_findings(findings: Seq<AuditFinding>, severity: AuditSeverity)
    ensures
        audit::count_of(validation::finding_views(findings), severity) == findings.filter(
            |f: AuditFinding| f@.severity == severity,
        ).len(),
    decreases findings.len(),
{
    reveal(Seq::filter);
    if findings.len() > 0 {
        lemma_findings(findings.drop_last(), severity);
        let v = validation::finding_views(findings);
        assert(v.drop_last() =~= validation::finding_views(findings.drop_last()));
        assert(v.last() == findings.last()@);
    }
}

/// The findings of a severity are counted, and no others.
pub proof fn findings_of_a_severity(findings: Vec<AuditFinding>, severity: AuditSeverity, r: usize)
    requires
        call_ensures(audit::count_findings, (&findings, severity), r),
    ensures
        r == findings@.filter(|f: AuditFinding| f@.severity == severity).len(),
{
    lemma_findings(findings@, severity);
}

} // verus!
