//! What holds of what commands give back, and of the pieces that they are made of.
use crate::block;
use crate::commands;
use crate::commands::claim::ClaimOutput;
use crate::commands::pace;
use crate::commands::policy_check::PolicyCheckOutput;
use crate::commands::status;
use crate::commands::status::StatusOutput;
use crate::commands::sync;
use crate::commands::sync::{PullAction, SyncOutput};
use crate::config::{NodeConfig, ProtocolConfig};
use crate::ledger::{Ledger, LedgerRow};
use crate::sort;
use crate::sort::Ranked;
use crate::state::{PullRequestState, RepositoryState, ThesisState};
use crate::text;
use crate::validation::AuditSeverity;
use crate::worker::{ThesisWorker, WorkerContext};
use vstd::prelude::*;

verus! {

/// The text holds the word.
pub open spec fn with_word(word: Seq<char>) -> spec_fn(Seq<char>) -> bool {
    |s: Seq<char>| text::holds(s, word)
}

proof fn lemma_count_with(items: Seq<Seq<char>>, word: Seq<char>)
    ensures
        status::count_with(items, word) == items.filter(with_word(word)).len(),
    decreases items.len(),
{
    reveal(Seq::filter);
    if items.len() > 0 {
        lemma_count_with(items.drop_last(), word);
    }
}

/// A project's status tells its state as it is, whether the ledger is current, and how many of the
/// items for the maintainer wait and how many were turned down.
pub proof fn what_a_status_tells(
    repo: String,
    config: ProtocolConfig,
    s: RepositoryState,
    ledger: Ledger,
    items: Vec<String>,
    current: bool,
    invalid: usize,
    suspicious: usize,
    info: usize,
    r: StatusOutput,
)
    requires
        call_ensures(status::status, (repo, &config, &s, &ledger), r),
        call_ensures(status::maintainer_items, (&s, config.auto_approve), items),
        call_ensures(Ledger::is_current, (&ledger, &s), current),
        call_ensures(
            commands::audit::count_findings,
            (&s.audit_findings, AuditSeverity::Invalid),
            invalid,
        ),
        call_ensures(
            commands::audit::count_findings,
            (&s.audit_findings, AuditSeverity::Suspicious),
            suspicious,
        ),
        call_ensures(
            commands::audit::count_findings,
            (&s.audit_findings, AuditSeverity::Info),
            info,
        ),
    ensures
        r.repo@ == repo@,
        r.auto_approve == config.auto_approve,
        r.queue_depth == s.queue_depth,
        text::texts(r.active_nodes@) == text::texts(s.active_nodes@),
        r.current_best_accepted_metric == s.current_best_accepted_metric,
        r.ledger_current == current,
        r.thesis_count == s.theses@.len(),
        r.invalid_count == invalid,
        r.suspicious_count == suspicious,
        r.info_count == info,
        text::texts(r.maintainer_items@) == text::texts(items@),
        r.maintainer_pending_count == text::texts(items@).filter(with_word("awaiting"@)).len(),
        r.maintainer_rejected_count == text::texts(items@).filter(with_word("rejected"@)).len(),
{
    lemma_count_with(text::texts(items@), "awaiting"@);
    lemma_count_with(text::texts(items@), "rejected"@);
}

/// A check has passed exactly where no file violates the policy.
pub proof fn when_a_check_has_passed(
    pr: u64,
    thesis: Option<u64>,
    files: Vec<String>,
    r: PolicyCheckOutput,
)
    requires
        call_ensures(PolicyCheckOutput::new, (pr, thesis, files), r),
    ensures
        r.passed <==> files@.len() == 0,
        r.pr == pr,
        r.thesis == thesis,
        r.violating_files == files,
{
}

/// A sync tells how many rows were added and which attempts they are of.
pub proof fn what_a_sync_tells(missing: Vec<LedgerRow>, r: SyncOutput, i: int)
    requires
        call_ensures(SyncOutput::new, (&missing,), r),
        0 <= i < missing@.len(),
    ensures
        r.added_rows == missing@.len(),
        r.attempts@.len() == missing@.len(),
        r.attempts@[i]@ == missing@[i].attempt@,
{
    let all = text::texts(r.attempts@);
    assert(all.len() == r.attempts@.len());
    assert(all[i] == r.attempts@[i]@);
}

/// Each step of a pull runs its own command, on the host's copy of the branch.
pub proof fn what_a_pull_runs(branch: &str, a: PullAction, r: Vec<String>)
    requires
        call_ensures(sync::pull_args, (&a, branch), r),
    ensures
        ({
            let v = text::texts(r@);
            let remote = "origin/"@ + branch@;
            &&& a is Fetch ==> v == seq!["fetch"@, "origin"@, branch@]
            &&& a is FastForward ==> v == seq!["merge"@, "--ff-only"@, remote]
            &&& a is Rebase ==> v == seq!["rebase"@, remote]
            &&& a is Abort ==> v == seq!["rebase"@, "--abort"@]
            &&& a is ReadLog ==> v == seq!["log"@, "--format=%s"@, remote + "..HEAD"@]
            &&& a is Reset ==> v == seq!["reset"@, "--hard"@, remote]
        }),
{
}

/// A slug holds small letters and digits, with single dashes between them and none at the ends; its
/// letters and digits are those of the title, in small letters, and a slug's slug is itself.
pub proof fn what_a_slug_is(title: &str, r: String, again: &str, s: String)
    requires
        call_ensures(commands::slugify, (title,), r),
        again@ == r@,
        call_ensures(commands::slugify, (again,), s),
    ensures
        s@ == r@,
        forall|i: int|
            0 <= i < r@.len() ==> '0' <= #[trigger] r@[i] <= '9' || 'a' <= r@[i] <= 'z' || r@[i]
                == '-',
        forall|i: int| 0 < i < r@.len() && #[trigger] r@[i] == '-' ==> r@[i - 1] != '-',
        r@.len() > 0 ==> r@[0] != '-' && r@.last() != '-',
        commands::without_dashes(r@) == commands::letters_of(title@),
{
    commands::slug_is_plain(title@);
    commands::slug_keeps_letters(title@);
    commands::slug_of_a_slug(title@);
    assert forall|i: int| 0 <= i < r@.len() implies '0' <= #[trigger] r@[i] <= '9' || 'a' <= r@[i]
        <= 'z' || r@[i] == '-' by {
        assert(commands::in_slug(commands::slug_of(title@)[i]));
    }
}

/// A node's name is its login and its machine, with a slash between them.
pub proof fn what_a_node_is_called(login: &str, machine: &str, r: String)
    requires
        call_ensures(commands::node_name, (login, machine), r),
    ensures
        r@ == login@.push('/') + machine@,
{
    reveal_strlit("/");
    assert(login@ + "/"@ =~= login@.push('/'));
}

/// What is sorted is in order, and holds what there was.
pub proof fn what_is_sorted_is_in_order<T: Ranked>(items: Vec<T>, r: Vec<T>)
    requires
        call_ensures(sort::sort::<T>, (items,), r),
    ensures
        r@.len() == items@.len(),
        r@.to_multiset() == items@.to_multiset(),
        forall|i: int, j: int|
            0 <= i < j < r@.len() ==> !(#[trigger] r@[i]).after(#[trigger] r@[j]),
{
    sort::sorted_is_ordered_and_complete(items@);
}

/// Of the fields with a name the last one counts; without one nothing is found.
pub proof fn the_last_field_of_a_name_counts(
    fields: Vec<(String, String)>,
    key: &str,
    r: Option<String>,
)
    requires
        call_ensures(block::lookup, (&fields, key), r),
    ensures
        r matches Some(v) ==> exists|i: int|
            0 <= i < fields@.len() && (#[trigger] fields@[i]).0@ == key@ && fields@[i].1@ == v@
                && forall|j: int| i < j < fields@.len() ==> (#[trigger] fields@[j]).0@ != key@,
        r is None ==> forall|j: int|
            0 <= j < fields@.len() ==> (#[trigger] fields@[j]).0@ != key@,
{
    let all = block::field_views(fields@);
    assert(all.len() == fields@.len());
    lemma_field(all, key@);
    assert forall|j: int| 0 <= j < fields@.len() implies (#[trigger] fields@[j]).0@
        == all[j].0 && fields@[j].1@ == all[j].1 by {}
    if let Some(v) = r {
        let i = choose|i: int|
            0 <= i < all.len() && (#[trigger] all[i]).0 == key@ && all[i].1 == v@ && forall|j: int|
                i < j < all.len() ==> (#[trigger] all[j]).0 != key@;
        assert(fields@[i].0@ == key@ && fields@[i].1@ == v@);
        assert forall|j: int| i < j < fields@.len() implies (#[trigger] fields@[j]).0@ != key@ by {
            assert(all[j].0 != key@);
        }
    } else {
        assert forall|j: int| 0 <= j < fields@.len() implies (#[trigger] fields@[j]).0@ != key@ by {
            assert(all[j].0 != key@);
        }
    }
}

proof fn lemma_field(f: Seq<(Seq<char>, Seq<char>)>, key: Seq<char>)
    ensures
        block::field(f, key) matches Some(v) ==> exists|i: int|
            0 <= i < f.len() && (#[trigger] f[i]).0 == key && f[i].1 == v && forall|j: int|
                i < j < f.len() ==> (#[trigger] f[j]).0 != key,
        block::field(f, key) is None ==> forall|j: int|
            0 <= j < f.len() ==> (#[trigger] f[j]).0 != key,
    decreases f.len(),
{
    if f.len() > 0 {
        let rest = f.drop_last();
        lemma_field(rest, key);
        assert(f[f.len() - 1] == f.last());
        if f.last().0 != key {
            assert forall|j: int| 0 <= j < rest.len() implies (#[trigger] f[j]) == rest[j] by {}
            if let Some(v) = block::field(rest, key) {
                let i = choose|i: int|
                    0 <= i < rest.len() && (#[trigger] rest[i]).0 == key && rest[i].1 == v
                        && forall|j: int| i < j < rest.len() ==> (#[trigger] rest[j]).0 != key;
                assert(f[i] == rest[i]);
                assert forall|j: int| i < j < f.len() implies (#[trigger] f[j]).0 != key by {
                    if j < rest.len() {
                        assert(rest[j].0 != key);
                    }
                }
            } else {
                assert forall|j: int| 0 <= j < f.len() implies (#[trigger] f[j]).0 != key by {
                    if j < rest.len() {
                        assert(rest[j].0 != key);
                    }
                }
            }
        }
    }
}

/// What a node's settings come to: what is set where it can be used, and what is usual otherwise.
pub proof fn what_settings_come_to(
    c: NodeConfig,
    capacity: u8,
    budget: u64,
    delay: u64,
    loaded: u64,
    usual: u64,
    loaded_delay: u64,
    usual_delay: u64,
)
    requires
        call_ensures(NodeConfig::effective_capacity, (&c,), capacity),
        call_ensures(NodeConfig::effective_api_budget, (&c,), budget),
        call_ensures(NodeConfig::effective_request_delay_ms, (&c,), delay),
        call_ensures(NodeConfig::load_api_budget, (Some(&c),), loaded),
        call_ensures(NodeConfig::load_api_budget, (None,), usual),
        call_ensures(NodeConfig::load_request_delay_ms, (Some(&c),), loaded_delay),
        call_ensures(NodeConfig::load_request_delay_ms, (None,), usual_delay),
    ensures
        1 <= capacity <= 100,
        1 <= c.capacity <= 100 ==> capacity == c.capacity,
        c.capacity > 100 ==> capacity == 100,
        c.capacity == 0 ==> capacity == 75,
        budget > 0,
        c.api_budget > 0 ==> budget == c.api_budget,
        c.api_budget == 0 ==> budget == usual,
        loaded == budget,
        c.request_delay_ms > 0 ==> delay == c.request_delay_ms,
        c.request_delay_ms == 0 ==> delay == usual_delay,
        loaded_delay == delay,
{
}

/// A rule that was not set is refused, and one that was is told as it is.
pub proof fn which_rules_are_required(
    c: ProtocolConfig,
    tolerance: Result<String, String>,
    lead: Result<String, String>,
    maintainer: Result<String, String>,
)
    requires
        call_ensures(ProtocolConfig::tolerance, (&c,), tolerance),
        call_ensures(ProtocolConfig::lead_login, (&c,), lead),
        call_ensures(ProtocolConfig::maintainer_login, (&c,), maintainer),
    ensures
        c.metric_tolerance matches Some(t) ==> tolerance == Ok::<String, String>(t),
        c.metric_tolerance is None ==> tolerance is Err,
        c.lead_github_login matches Some(t) ==> lead == Ok::<String, String>(t),
        c.lead_github_login is None ==> lead is Err,
        c.maintainer_github_login matches Some(t) ==> maintainer == Ok::<String, String>(t),
        c.maintainer_github_login is None ==> maintainer is Err,
{
}

proof fn lemma_first_open(prs: Seq<PullRequestState>, i: int)
    requires
        0 <= i <= prs.len(),
    ensures
        crate::state::first_open(prs, i) matches Some(k) ==> i <= k < prs.len()
            && prs[k].pr.state@ == "OPEN"@ && forall|j: int|
            i <= j < k ==> (#[trigger] prs[j]).pr.state@ != "OPEN"@,
        crate::state::first_open(prs, i) is None ==> forall|j: int|
            i <= j < prs.len() ==> (#[trigger] prs[j]).pr.state@ != "OPEN"@,
    decreases prs.len() - i,
{
    if i < prs.len() && prs[i].pr.state@ != "OPEN"@ {
        lemma_first_open(prs, i + 1);
    }
}

/// What the maintainer says of a thesis is what they say of its first open candidate; where there is
/// none, it is what they say of the thesis itself.
pub proof fn what_the_maintainer_says_of_a_thesis(
    t: ThesisState,
    k: int,
    word: &'static str,
    r: String,
    auto: String,
)
    requires
        call_ensures(ThesisState::maintainer_summary, (&t, false), r),
        call_ensures(ThesisState::maintainer_summary, (&t, true), auto),
        0 <= k < t.pull_requests@.len() ==> call_ensures(
            PullRequestState::maintainer_status,
            (&t.pull_requests@[k], false),
            word,
        ),
    ensures
        auto@ == "auto"@,
        (0 <= k < t.pull_requests@.len() && t.pull_requests@[k].pr.state@ == "OPEN"@ && (forall|
            j: int,
        |
            0 <= j < k ==> (#[trigger] t.pull_requests@[j]).pr.state@ != "OPEN"@)) ==> r@ == "PR "@
            + word@,
        (forall|j: int|
            0 <= j < t.pull_requests@.len() ==> (#[trigger] t.pull_requests@[j]).pr.state@
                != "OPEN"@) ==> r@ == (if t.maintainer_rejected {
            "rejected"@
        } else if t.approved {
            "approved"@
        } else {
            "waiting"@
        }),
{
    lemma_first_open(t.pull_requests@, 0);
}

/// A claim, and the work that follows it, is at the thesis's own branch and in its own directory.
pub proof fn where_a_claimed_thesis_is_worked_at(
    root: &str,
    t: ThesisState,
    title: &str,
    node: &str,
    branch: String,
    path: String,
    r: ClaimOutput,
    ctx: WorkerContext,
    prior: String,
    w: ThesisWorker,
)
    requires
        title@ == t.issue.title@,
        ctx.repo_root@ == root@,
        ctx.issue_number == t.issue.number,
        ctx.thesis_title@ == t.issue.title@,
        call_ensures(commands::thesis_branch, (t.issue.number, title), branch),
        call_ensures(commands::thesis_worktree_path, (root, t.issue.number, title), path),
        call_ensures(ClaimOutput::new, (root, &t, node), r),
        call_ensures(ThesisWorker::new, (ctx, prior), w),
    ensures
        r.issue == t.issue.number,
        r.node@ == node@,
        r.branch@ == branch@,
        r.worktree_path@ == path@,
        w.branch@ == branch@,
        w.worktree_path@ == path@,
        w.ctx == ctx,
        w.prior_attempts == prior,
{
}

/// The lines with their last one, which may be empty.
pub open spec fn all_lines(f: (Seq<Seq<char>>, Seq<char>)) -> Seq<Seq<char>> {
    if f.1.len() == 0 {
        f.0
    } else {
        f.0.push(f.1)
    }
}

/// The line fits into the width, or it is one word.
pub open spec fn fits_or_is_a_word(
    line: Seq<char>,
    width: usize,
    words: Seq<Seq<char>>,
) -> bool {
    text::size(line) <= width || words.contains(line)
}

proof fn lemma_filled(words: Seq<Seq<char>>, width: usize)
    requires
        forall|i: int| 0 <= i < words.len() ==> (#[trigger] words[i]).len() > 0,
    ensures
        words.len() > 0 ==> pace::filled(words, width).1.len() > 0,
        words.len() == 0 ==> pace::filled(words, width).0.len() == 0,
        text::joined(all_lines(pace::filled(words, width)), " "@) == text::joined(words, " "@),
        forall|i: int|
            0 <= i < all_lines(pace::filled(words, width)).len() ==> fits_or_is_a_word(
                #[trigger] all_lines(pace::filled(words, width))[i],
                width,
                words,
            ),
    decreases words.len(),
{
    if words.len() > 0 {
        let rest = words.drop_last();
        let word = words.last();
        assert forall|i: int| 0 <= i < rest.len() implies (#[trigger] rest[i]).len() > 0 by {
            assert(rest[i] == words[i]);
        }
        assert(words[words.len() - 1] == word);
        lemma_filled(rest, width);
        let before = pace::filled(rest, width);
        let after = pace::filled(words, width);
        let a = all_lines(before);
        let b = all_lines(after);
        assert forall|l: Seq<char>| #[trigger] rest.contains(l) implies words.contains(l) by {
            let k = choose|k: int| 0 <= k < rest.len() && rest[k] == l;
            assert(words[k] == l);
        }
        if before.1.len() == 0 {
            assert(rest.len() == 0);
            assert(b =~= seq![word]);
            assert(words =~= seq![word]);
        } else if text::size(before.1) + 1 + text::size(word) > width {
            assert(b.drop_last() =~= a);
            assert(b.last() == word);
            assert forall|i: int| 0 <= i < b.len() implies fits_or_is_a_word(
                #[trigger] b[i],
                width,
                words,
            ) by {
                if i < a.len() {
                    assert(a[i] == b[i]);
                    assert(fits_or_is_a_word(a[i], width, rest));
                } else {
                    assert(words.contains(word));
                }
            }
        } else {
            let longer = before.1 + " "@ + word;
            lemma_size(before.1, word);
            assert(b.drop_last() =~= a.drop_last());
            assert(b.last() == longer);
            assert(a.last() == before.1);
            if a.len() == 1 {
                assert(text::joined(a, " "@) == a[0]);
                assert(text::joined(b, " "@) == b[0]);
            } else {
                assert(text::joined(b, " "@) =~= text::joined(a, " "@) + " "@ + word);
            }
            assert forall|i: int| 0 <= i < b.len() implies fits_or_is_a_word(
                #[trigger] b[i],
                width,
                words,
            ) by {
                if i < a.len() - 1 {
                    assert(a[i] == b[i]);
                    assert(fits_or_is_a_word(a[i], width, rest));
                }
            }
        }
        if rest.len() > 0 {
            assert(words.drop_last() =~= rest);
        }
    }
}

proof fn lemma_size(a: Seq<char>, b: Seq<char>)
    ensures
        text::size(a + " "@ + b) == text::size(a) + 1 + text::size(b),
    decreases a.len(),
{
    reveal_strlit(" ");
    if a.len() == 0 {
        let t = a + " "@ + b;
        assert(t[0] == ' ');
        assert(t.drop_first() =~= b);
        vstd::utf8::char_is_scalar(' ');
        assert(a =~= Seq::empty());
        assert(vstd::utf8::encode_utf8(t) == vstd::utf8::encode_scalar(' ' as u32)
            + vstd::utf8::encode_utf8(b));
        assert(vstd::utf8::encode_scalar(' ' as u32).len() == 1);
    } else {
        let t = a + " "@ + b;
        lemma_size(a.drop_first(), b);
        assert(t.drop_first() =~= a.drop_first() + " "@ + b);
        assert(t[0] == a[0]);
    }
}

/// A wrapped text has the same words in the same order, and no line is wider than it may be unless
/// it is a single word.
pub proof fn wrapping_keeps_all_words(
    s: &str,
    width: usize,
    words: Vec<String>,
    sep: &str,
    joined: String,
    r: Vec<String>,
    back: String,
)
    requires
        sep@ == " "@,
        call_ensures(pace::wrap_text, (s, width), r),
        call_ensures(text::split_whitespace, (s,), words),
        call_ensures(text::join, (&words, sep), joined),
        call_ensures(text::join, (&r, sep), back),
    ensures
        back@ == joined@,
        forall|i: int|
            0 <= i < r@.len() ==> text::size((#[trigger] r@[i])@) <= width || text::texts(
                words@,
            ).contains(r@[i]@),
{
    crate::laws::texts::words_hold_all_but_the_blanks(s, words);
    let all = text::texts(words@);
    assert(all.len() == words@.len());
    assert forall|i: int| 0 <= i < all.len() implies (#[trigger] all[i]).len() > 0 by {
        assert(all[i] == words@[i]@);
    }
    lemma_filled(all, width);
    let lines = text::texts(r@);
    assert(lines.len() == r@.len());
    assert(lines == all_lines(pace::filled(all, width)));
    assert forall|i: int| 0 <= i < r@.len() implies text::size((#[trigger] r@[i])@) <= width
        || all.contains(r@[i]@) by {
        assert(lines[i] == r@[i]@);
        assert(fits_or_is_a_word(lines[i], width, all));
    }
}

} // verus!
