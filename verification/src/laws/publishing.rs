//! What holds of what is posted, staged, pushed and removed.
use crate::cli::{AnnotateArgs, AttemptArgs, ReleaseArgs, ReviewArgs};
use crate::commands;
use crate::commands::annotate;
use crate::commands::annotate::AnnotateOutput;
use crate::commands::attempt;
use crate::commands::attempt::AttemptOutput;
use crate::commands::commit;
use crate::commands::duties;
use crate::commands::duties::{DutyItem, DutyView};
use crate::commands::generate;
use crate::commands::generate::{GenerateOutput, Opening};
use crate::commands::prune;
use crate::commands::prune::PruneAction;
use crate::commands::release;
use crate::commands::release::ReleaseOutput;
use crate::commands::review;
use crate::commands::review::ReviewOutput;
use crate::commands::review_claim;
use crate::commands::review_claim::ReviewClaimOutput;
use crate::commands::submit;
use crate::commands::sync;
use crate::commands::sync::{PullAction, PullOutcome, PushAction};
use crate::comments::{AttemptAnnotation, ProtocolComment};
use crate::config::{ProgramSpec, ProtocolConfig};
use crate::editable_surface;
use crate::editable_surface::{EditableSurface, StageVerdict};
use crate::laws::permissions;
use crate::state;
use crate::state::{RepositoryState, ThesisState};
use crate::text;
use crate::time::Timestamp;
use vstd::prelude::*;

verus! {

/// An attempt is posted as it was given: for the thesis, on the branch, with the metric, the baseline,
/// the observation and the summary, each in its own place; it is the next one at the thesis.
pub proof fn an_attempt_is_posted_as_given(
    t: ThesisState,
    args: AttemptArgs,
    branch: &str,
    notes: Option<Vec<AttemptAnnotation>>,
    r: (ProtocolComment, AttemptOutput),
)
    requires
        t.attempts@.len() < usize::MAX,
        call_ensures(attempt::record, (&t, &args, branch, notes), r),
    ensures
        r.0 matches ProtocolComment::Attempt {
            thesis,
            branch: b,
            metric,
            baseline_metric,
            observation,
            summary,
            annotations,
        } && thesis == args.issue && b@ == branch@ && metric.bits == args.metric.bits
            && metric.text@ == args.metric.text@ && (baseline_metric matches Some(m) && m.bits
            == args.baseline.bits && m.text@ == args.baseline.text@) && observation
            == args.observation && summary@ == args.summary@ && (annotations is Some
            <==> notes is Some),
        r.1.issue == args.issue,
        r.1.attempt_number == t.attempts@.len() + 1,
{
}

/// A branch is one of the thesis exactly where its name starts with the thesis's number behind the
/// usual word and before a dash.
pub proof fn which_branch_is_of_the_thesis(branch: &str, number: u64, r: Result<(), String>)
    requires
        call_ensures(attempt::ensure_thesis_branch, (branch, number), r),
    ensures
        r is Ok <==> text::begins(
            branch@,
            "thesis/"@ + text::decimal(number as nat) + "-"@,
        ),
{
}

/// The branch of a thesis is one of the thesis, and the thesis's number is read back from its name,
/// as from every name that starts like it.
pub proof fn a_branch_tells_its_thesis(
    number: u64,
    title: &str,
    branch: String,
    name: &str,
    read: Option<u64>,
)
    requires
        call_ensures(commands::thesis_branch, (number, title), branch),
        call_ensures(state::parse_thesis_number_from_branch, (name,), read),
    ensures
        text::begins(branch@, "thesis/"@ + text::decimal(number as nat) + "-"@),
        text::begins(name@, "thesis/"@ + text::decimal(number as nat) + "-"@) ==> read == Some(
            number,
        ),
        read is Some ==> text::begins(name@, "thesis/"@),
{
    let start = "thesis/"@ + text::decimal(number as nat) + "-"@;
    assert(branch@.take(start.len() as int) =~= start);
    if text::begins(name@, start) {
        crate::discussion::lemma_branch_of_thesis(name@, number);
    }
}

/// The comment that gives a claim up names the thesis, the node and the reason that were given.
pub proof fn a_release_is_posted_as_given(
    args: ReleaseArgs,
    node: &str,
    r: (ProtocolComment, ReleaseOutput),
)
    requires
        call_ensures(release::release, (&args, node), r),
    ensures
        r.0 matches ProtocolComment::Release { thesis, node: n, reason } && thesis == args.issue
            && n@ == node@ && reason == args.reason,
        r.1.issue == args.issue,
{
}

/// A remark goes to a thesis that there is, with the text that was given.
pub proof fn a_remark_is_posted_as_given(
    s: RepositoryState,
    args: AnnotateArgs,
    node: &str,
    i: int,
    r: Result<(ProtocolComment, AnnotateOutput), String>,
)
    requires
        call_ensures(annotate::annotate, (&s, &args, node), r),
        permissions::thesis_is_at(s, args.issue, i),
    ensures
        r matches Ok((c, o)) && (c matches ProtocolComment::Annotation { thesis, node: n, text }
            && thesis == args.issue && n@ == node@ && text@ == args.text@),
{
    permissions::a_thesis_is_found_by_its_place(s, args.issue, i);
}

/// A review is claimed for the thesis of the candidate, and only where the candidate may be reviewed.
pub proof fn a_review_claim_is_for_the_candidate(
    s: RepositoryState,
    number: u64,
    login: &str,
    node: &str,
    i: int,
    k: int,
    r: Result<(ProtocolComment, ReviewClaimOutput), String>,
)
    requires
        call_ensures(review_claim::claim_review, (&s, number, login, node), r),
        permissions::candidate_is_at(s, number, i, k),
    ensures
        ({
            let p = s.theses@[i].pull_requests@[k];
            r is Ok <==> p.policy_pass && p.decision is None && !(p.pr.author matches Some(a)
                && a.login@ == login@)
        }),
        r matches Ok((c, o)) ==> (c matches ProtocolComment::ReviewClaim { thesis, node: n }
            && thesis == s.theses@[i].issue.number && n@ == node@) && o.pr == number,
{
    permissions::a_candidate_is_found_by_its_place(s, number, i, k);
}

/// A review is posted as it was given: of the candidate's commit on the base commit, with the metric,
/// the baseline and the observation, each in its own place, in the environment and at the time.
pub proof fn a_review_is_posted_as_given(
    t: ThesisState,
    args: ReviewArgs,
    node: &str,
    candidate: &str,
    base: &str,
    env: Option<String>,
    now: Timestamp,
    r: (ProtocolComment, ReviewOutput),
)
    requires
        call_ensures(review::record, (&t, &args, node, candidate, base, &env, now), r),
    ensures
        r.0 matches ProtocolComment::Review {
            thesis,
            candidate_sha,
            base_sha,
            node: n,
            metric,
            baseline_metric,
            observation,
            env_sha,
            timestamp,
        } && thesis == t.issue.number && candidate_sha@ == candidate@ && base_sha@ == base@ && n@
            == node@ && metric.bits == args.metric.bits && metric.text@ == args.metric.text@
            && baseline_metric.bits == args.baseline.bits && baseline_metric.text@
            == args.baseline.text@ && observation == args.observation && timestamp == now && (
        env_sha is Some <==> env is Some) && (env_sha is Some ==> env_sha->Some_0@
            == env->Some_0@),
{
}

/// A new thesis is approved at once, by a comment for it, exactly where nobody has to approve it; else
/// the maintainer is assigned. Without a maintainer to ask, none is made.
pub proof fn how_a_new_thesis_is_opened(
    config: ProtocolConfig,
    a: Result<Option<String>, String>,
    number: u64,
    who: Option<String>,
    r: Opening,
)
    requires
        call_ensures(generate::approver, (&config,), a),
        call_ensures(generate::opening, (number, who), r),
    ensures
        a is Err <==> !config.auto_approve && config.maintainer_github_login is None,
        a matches Ok(x) ==> (x is None <==> config.auto_approve),
        a matches Ok(x) ==> (x is Some ==> x == config.maintainer_github_login),
        who is None <==> r is Approve,
        r matches Opening::Approve { comment } ==> (comment matches ProtocolComment::Approval {
            thesis,
        } && thesis == number),
        r matches Opening::Assign { maintainer } ==> who == Some(maintainer),
{
}

/// A thesis may be proposed only while the queue is shorter than its limit, where there is one.
pub proof fn when_the_queue_has_room(
    s: RepositoryState,
    config: ProtocolConfig,
    r: Result<(), String>,
)
    requires
        call_ensures(generate::ensure_queue_has_room, (&s, &config), r),
    ensures
        r is Ok <==> (config.max_queue_depth matches Some(max) ==> s.queue_depth < max),
{
}

/// What is told of a proposal: that the queue is too short exactly where it is, and that the
/// maintainer is waited for exactly where theses are not approved by themselves.
pub proof fn what_is_told_of_a_proposal(
    s: RepositoryState,
    config: ProtocolConfig,
    number: Option<u64>,
    url: Option<String>,
    r: GenerateOutput,
)
    requires
        call_ensures(GenerateOutput::new, (&s, &config, number, url), r),
    ensures
        r.warned_below_min_queue_depth <==> s.queue_depth < config.min_queue_depth,
        r.awaiting_maintainer_approval <==> !config.auto_approve,
        r.queue_depth == s.queue_depth,
        r.issue_number == number,
{
}

proof fn lemma_unprocessed(items: Seq<DutyView>)
    ensures
        generate::unprocessed(items).len() == 0 <==> forall|i: int|
            0 <= i < items.len() ==> (#[trigger] items[i]).category != "decide"@
                && items[i].category != "policy-check"@,
    decreases items.len(),
{
    if items.len() > 0 {
        let rest = items.drop_last();
        lemma_unprocessed(rest);
        assert(items[items.len() - 1] == items.last());
        assert(forall|i: int| 0 <= i < rest.len() ==> #[trigger] rest[i] == items[i]);
        if generate::unprocessed(items).len() == 0 {
            assert forall|i: int| 0 <= i < items.len() implies (#[trigger] items[i]).category
                != "decide"@ && items[i].category != "policy-check"@ by {
                if i < rest.len() {
                    assert(rest[i] == items[i]);
                }
            }
        }
    }
}

/// A thesis may be proposed only where no candidate is to be checked or decided.
pub proof fn candidates_come_before_proposals(blocking: Vec<DutyItem>, r: Result<(), String>)
    requires
        call_ensures(generate::ensure_candidates_processed, (&blocking,), r),
    ensures
        r is Ok <==> forall|i: int|
            0 <= i < blocking@.len() ==> (#[trigger] blocking@[i]).category@ != "decide"@
                && blocking@[i].category@ != "policy-check"@,
{
    let v = duties::duty_views(blocking@);
    lemma_unprocessed(v);
    assert(v.len() == blocking@.len());
    assert(forall|i: int| 0 <= i < blocking@.len() ==> v[i] == (#[trigger] blocking@[i])@);
    if forall|i: int|
        0 <= i < blocking@.len() ==> (#[trigger] blocking@[i]).category@ != "decide"@
            && blocking@[i].category@ != "policy-check"@ {
        assert forall|i: int| 0 <= i < v.len() implies (#[trigger] v[i]).category != "decide"@
            && v[i].category != "policy-check"@ by {
            assert(v[i] == blocking@[i]@);
        }
    } else {
        let i = choose|i: int|
            0 <= i < blocking@.len() && !((#[trigger] blocking@[i]).category@ != "decide"@
                && blocking@[i].category@ != "policy-check"@);
        assert(v[i] == blocking@[i]@);
    }
}

proof fn lemma_same_titles(theses: Seq<ThesisState>, title: Seq<char>)
    ensures
        generate::same_titles(theses, title).len() == 0 <==> forall|i: int|
            0 <= i < theses.len() ==> generate::normalized((#[trigger] theses[i]).issue.title@)
                != generate::normalized(title),
    decreases theses.len(),
{
    if theses.len() > 0 {
        let rest = theses.drop_last();
        lemma_same_titles(rest, title);
        assert(theses[theses.len() - 1] == theses.last());
        assert(forall|i: int| 0 <= i < rest.len() ==> #[trigger] rest[i] == theses[i]);
        if generate::same_titles(theses, title).len() == 0 {
            assert forall|i: int| 0 <= i < theses.len() implies generate::normalized(
                (#[trigger] theses[i]).issue.title@,
            ) != generate::normalized(title) by {
                if i < rest.len() {
                    assert(rest[i] == theses[i]);
                }
            }
        }
    }
}

/// A title is new exactly where it differs from that of every thesis by more than case and
/// punctuation; so a title that a thesis has is never new, however it is written.
pub proof fn which_title_is_new(
    s: RepositoryState,
    title: &str,
    plain: String,
    i: int,
    other: &str,
    other_plain: String,
    r: Result<(), String>,
)
    requires
        call_ensures(generate::ensure_new_title, (&s, title), r),
        call_ensures(generate::normalize_title, (title,), plain),
        0 <= i < s.theses@.len(),
        other@ == s.theses@[i].issue.title@,
        call_ensures(generate::normalize_title, (other,), other_plain),
    ensures
        r is Ok ==> plain@ != other_plain@,
        title@ == other@ ==> r is Err,
{
    lemma_same_titles(s.theses@, title@);
    if r is Ok {
        assert(generate::normalized(s.theses@[i].issue.title@) != generate::normalized(title@));
    }
}

/// The log holds commits, and each line that says something is the message of a commit of the
/// ledger.
pub open spec fn only_ledger_commits(log: Seq<char>) -> bool {
    let lines = text::lines_of(log);
    &&& exists|i: int| 0 <= i < lines.len() && text::trimmed(#[trigger] lines[i]).len() > 0
    &&& forall|i: int|
        0 <= i < lines.len() && text::trimmed(#[trigger] lines[i]).len() > 0 ==> lines[i]
            == "Update results.tsv via polyresearch sync."@
}

proof fn lemma_told(lines: Seq<Seq<char>>)
    ensures
        ({
            let told = sync::told_lines(lines);
            &&& told.len() > 0 <==> exists|i: int|
                0 <= i < lines.len() && text::trimmed(#[trigger] lines[i]).len() > 0
            &&& (forall|k: int|
                0 <= k < told.len() ==> #[trigger] told[k]
                    == "Update results.tsv via polyresearch sync."@) <==> (forall|i: int|
                0 <= i < lines.len() && text::trimmed(#[trigger] lines[i]).len() > 0 ==> lines[i]
                    == "Update results.tsv via polyresearch sync."@)
        }),
    decreases lines.len(),
{
    if lines.len() > 0 {
        let rest = lines.drop_last();
        let n = lines.len() - 1;
        lemma_told(rest);
        let a = sync::told_lines(rest);
        let b = sync::told_lines(lines);
        let m = "Update results.tsv via polyresearch sync."@;
        assert(lines[n] == lines.last());
        assert(forall|i: int| 0 <= i < n ==> #[trigger] rest[i] == lines[i]);
        assert(forall|i: int| 0 <= i < n ==> rest[i] == #[trigger] lines[i]);
        assert(forall|k: int| 0 <= k < a.len() ==> #[trigger] b[k] == a[k]);
        assert(forall|k: int| 0 <= k < a.len() ==> b[k] == #[trigger] a[k]);
        if exists|i: int| 0 <= i < lines.len() && text::trimmed(#[trigger] lines[i]).len() > 0 {
            let i = choose|i: int|
                0 <= i < lines.len() && text::trimmed(#[trigger] lines[i]).len() > 0;
            if i < n {
                assert(text::trimmed(rest[i]).len() > 0);
            }
        }
        if b.len() > 0 && text::trimmed(lines.last()).len() == 0 {
            let i = choose|i: int|
                0 <= i < rest.len() && text::trimmed(#[trigger] rest[i]).len() > 0;
            assert(text::trimmed(lines[i]).len() > 0);
        }
        if text::trimmed(lines.last()).len() > 0 {
            assert(b[a.len() as int] == lines.last());
        }
    }
}

/// Local commits are dropped only where there are some and all of them are commits of the ledger.
pub proof fn which_commits_may_be_dropped(log: &str, r: bool)
    requires
        call_ensures(sync::local_sync_commits_only, (log,), r),
    ensures
        r <==> only_ledger_commits(log@),
{
    lemma_told(text::lines_of(log@));
}

/// How a pull goes on: what was fetched is first taken by a move forward, else by a rebase, and the
/// pull is then done. Only where both fail the local commits are looked at, and they are dropped
/// only where they are commits of the ledger; the caller then learns of it. Every other failure
/// ends the pull.
pub proof fn how_a_pull_goes_on(done: PullAction, ran: Result<String, String>, r: PullAction)
    requires
        call_ensures(sync::pull_default_branch, (done, ran), r),
    ensures
        done is Fetch ==> (r is FastForward <==> ran is Ok),
        done is Fetch && ran is Err ==> r == (PullAction::Fail { error: ran->Err_0 }),
        (done is FastForward || done is Rebase) && ran is Ok ==> r == (PullAction::Finish {
            outcome: PullOutcome::Updated,
        }),
        done is FastForward && ran is Err ==> r is Rebase,
        done is Rebase && ran is Err ==> r == (PullAction::Abort { error: ran->Err_0 }),
        done is Abort ==> r == (PullAction::ReadLog { error: done->Abort_error }),
        r is Reset <==> done is ReadLog && ran is Ok && only_ledger_commits(ran->Ok_0@),
        done is ReadLog && !(r is Reset) ==> r is Fail,
        done is ReadLog && ran is Ok && !(r is Reset) ==> r == (PullAction::Fail {
            error: done->ReadLog_error,
        }),
        r == (PullAction::Finish { outcome: PullOutcome::ResetSyncCommits }) && !(done is Finish)
            ==> done is Reset && ran is Ok,
        done is Reset ==> (ran is Ok <==> r == (PullAction::Finish {
            outcome: PullOutcome::ResetSyncCommits,
        })),
        done is Finish || done is Fail ==> r == done,
{
    if done is ReadLog && ran is Ok {
        lemma_told(text::lines_of(ran->Ok_0@));
    }
}

/// How a push goes on: it is done where it went through; it is tried again, after a pull, only where
/// the remote branch had moved and tries are left; and every other failure ends it.
pub proof fn how_a_push_goes_on(
    attempt: usize,
    max: usize,
    ran: Result<String, String>,
    moved: bool,
    said: &str,
    r: PushAction,
)
    requires
        call_ensures(sync::after_push, (attempt, max, ran), r),
        ran matches Err(e) ==> said@ == e@,
        call_ensures(sync::is_non_fast_forward_push_error, (said,), moved),
    ensures
        r is Pushed <==> ran is Ok,
        r is Pull <==> ran is Err && moved && attempt < max,
        r is Fail <==> ran is Err && !(moved && attempt < max),
        r matches PushAction::Fail { error } ==> ran == Err::<String, String>(error),
        r matches PushAction::Pull { attempt: a } ==> a == attempt,
{
}

/// After a pull between two pushes the next try counts one up; where the pull has dropped commits, the
/// ledger is derived again; and where it failed, so does the push.
pub proof fn what_follows_a_pull(
    attempt: usize,
    max: usize,
    pulled: Result<PullOutcome, String>,
    r: PushAction,
)
    requires
        attempt < max,
        call_ensures(sync::after_pull, (attempt, max, pulled), r),
    ensures
        pulled is Err <==> r is Fail,
        r is RestartSync <==> pulled == Ok::<PullOutcome, String>(PullOutcome::ResetSyncCommits),
        r matches PushAction::Push { attempt: a } ==> a == attempt + 1,
        pulled == Ok::<PullOutcome, String>(PullOutcome::Updated) ==> r is Push,
{
}

/// The ledger is derived again at most three times.
pub proof fn restarts_are_limited(count: usize, r: Result<usize, String>)
    requires
        count < usize::MAX,
        call_ensures(sync::restarted, (count,), r),
    ensures
        r is Ok <==> count < 3,
        r matches Ok(n) ==> n == count + 1,
{
}

/// The ledger is published from the default branch only.
pub proof fn where_the_ledger_is_synced(
    current: &str,
    default: &str,
    dry_run: bool,
    r: Result<(), String>,
)
    requires
        call_ensures(sync::ensure_on_default_branch, (current, default, dry_run), r),
    ensures
        r is Ok <==> dry_run || current@ == default@,
{
}

/// A directory that holds work is removed only where its name starts with the number of a thesis that
/// is resolved or rejected. Any other one is kept where it is registered, and else removed only
/// where it is empty.
pub proof fn which_directory_is_removed(
    name: &str,
    registered: bool,
    s: Option<RepositoryState>,
    number: Option<u64>,
    r: PruneAction,
)
    requires
        call_ensures(prune::prune_action, (name, registered, &s), r),
        call_ensures(prune::parse_issue_from_dirname, (name,), number),
    ensures
        ({
            let over = s is Some && number is Some && exists|i: int|
                0 <= i < s->Some_0.theses@.len() && (
                #[trigger] s->Some_0.theses@[i]).issue.number == number->Some_0 && (
                s->Some_0.theses@[i].phase is Resolved || s->Some_0.theses@[i].phase is Rejected);
            &&& r == PruneAction::RemoveWorktree <==> over && registered
            &&& r == PruneAction::RemoveTree <==> over && !registered
            &&& r == PruneAction::Keep <==> !over && registered
            &&& r == PruneAction::RemoveIfEmpty <==> !over && !registered
        }),
{
}

/// The directory of a thesis starts with the thesis's number and a dash, and the number is read back.
pub proof fn a_directory_tells_its_thesis(name: &str, number: u64, r: Option<u64>)
    requires
        call_ensures(prune::parse_issue_from_dirname, (name,), r),
        text::begins(name@, text::decimal(number as nat) + "-"@),
    ensures
        r == Some(number),
{
    reveal_strlit("-");
    let d = text::decimal(number as nat);
    let n = d.len() as int;
    text::lemma_decimal(number as nat);
    text::lemma_number_read_back(number as nat, u64::MAX as nat);
    let start = d + "-"@;
    assert(name@.take(start.len() as int) == start);
    assert(forall|j: int| 0 <= j < n ==> name@[j] == #[trigger] d[j]) by {
        assert forall|j: int| 0 <= j < n implies name@[j] == #[trigger] d[j] by {
            assert(name@.take(start.len() as int)[j] == start[j]);
        }
    }
    assert(name@[n] == '-') by {
        assert(name@.take(start.len() as int)[n] == start[n]);
    }
    assert(name@.subrange(n, n + 1) =~= "-"@);
    assert forall|j: int| 0 <= j < n implies !text::occurs_at(name@, "-"@, j) by {
        assert(name@.subrange(j, j + 1)[0] == d[j]);
        assert(text::is_digit(d[j]));
    }
    text::lemma_found_at(name@, "-"@, 0, n);
    assert(name@.take(n) =~= d);
}

/// A file of the evaluation: the program, how it is prepared, a node's configuration, and whatever
/// stands in the directory of the evaluation.
pub open spec fn is_of_evaluation(path: Seq<char>) -> bool {
    path == "PROGRAM.md"@ || path == "PREPARE.md"@ || path == ".polyresearch-node.toml"@
        || text::begins(path, ".polyresearch/"@)
}

/// Whatever patterns a surface is made of, it never allows a file of the evaluation.
pub proof fn the_evaluation_is_never_editable(
    can: Vec<String>,
    cannot: Vec<String>,
    surface: EditableSurface,
    path: &str,
    r: Result<bool, String>,
)
    requires
        call_ensures(EditableSurface::new, (can, cannot), surface),
        call_ensures(EditableSurface::allows_path, (&surface, path), r),
        is_of_evaluation(path@),
    ensures
        r != Ok::<bool, String>(true),
{
    editable_surface::evaluation_stays_closed(text::texts(cannot@), path@);
}

proof fn lemma_sorted_out(can: Seq<Seq<char>>, cannot: Seq<Seq<char>>, paths: Seq<Seq<char>>)
    ensures
        editable_surface::violations(can, cannot, paths) == paths.filter(
            |p: Seq<char>| !editable_surface::allows(can, cannot, p),
        ),
        editable_surface::allowed(can, cannot, paths) == paths.filter(
            |p: Seq<char>| editable_surface::allows(can, cannot, p),
        ),
    decreases paths.len(),
{
    reveal(Seq::filter);
    if paths.len() > 0 {
        lemma_sorted_out(can, cannot, paths.drop_last());
    }
}

proof fn lemma_kept(paths: Seq<Seq<char>>, q: spec_fn(Seq<char>) -> bool, i: int)
    requires
        0 <= i < paths.len(),
    ensures
        paths.filter(q).contains(paths[i]) <==> q(paths[i]),
{
    if q(paths[i]) {
        paths.lemma_filter_contains(q, i);
    }
    if paths.filter(q).contains(paths[i]) {
        let k = choose|k: int| 0 <= k < paths.filter(q).len() && paths.filter(q)[k] == paths[i];
        paths.lemma_filter_pred(q, k);
    }
}

/// A path is a violation exactly where the surface does not allow it, and is staged exactly where it
/// does; so what is staged holds no violation, and nothing that is allowed is left out.
pub proof fn paths_are_sorted_out(
    surface: EditableSurface,
    paths: Vec<String>,
    bad: Vec<String>,
    good: Vec<String>,
    i: int,
    path: &str,
    r: bool,
)
    requires
        call_ensures(
            EditableSurface::violations_for_paths,
            (&surface, &paths),
            Ok::<Vec<String>, String>(bad),
        ),
        call_ensures(
            EditableSurface::paths_to_stage,
            (&surface, &paths),
            Ok::<Vec<String>, String>(good),
        ),
        0 <= i < paths@.len(),
        path@ == paths@[i]@,
        call_ensures(EditableSurface::allows_path, (&surface, path), Ok::<bool, String>(r)),
    ensures
        text::texts(bad@).contains(path@) <==> !r,
        text::texts(good@).contains(path@) <==> r,
        bad@.len() + good@.len() == paths@.len(),
{
    let all = text::texts(paths@);
    lemma_sorted_out(surface.can(), surface.cannot(), all);
    assert(all[i] == path@);
    lemma_kept(
        all,
        |p: Seq<char>| !editable_surface::allows(surface.can(), surface.cannot(), p),
        i,
    );
    lemma_kept(
        all,
        |p: Seq<char>| editable_surface::allows(surface.can(), surface.cannot(), p),
        i,
    );
    editable_surface::staged_paths_hold_no_violation(surface.can(), surface.cannot(), all);
    assert(text::texts(bad@).len() == bad@.len());
    assert(text::texts(good@).len() == good@.len());
}

/// What was staged is committed exactly where there is something and nothing of it is a violation;
/// everything is unstaged where something is.
pub proof fn how_staged_files_are_judged(
    surface: EditableSurface,
    output: &str,
    bad: Vec<String>,
    r: Result<StageVerdict, String>,
    listed: Vec<String>,
)
    requires
        call_ensures(EditableSurface::judge_staged, (&surface, output), r),
        call_ensures(
            EditableSurface::validate_staged_files,
            (&surface, output),
            Ok::<Vec<String>, String>(bad),
        ),
        call_ensures(editable_surface::parse_output_lines, (output,), listed),
    ensures
        r is Ok,
        r->Ok_0 is Unstage <==> bad@.len() > 0,
        r->Ok_0 is Nothing <==> bad@.len() == 0 && listed@.len() == 0,
        r->Ok_0 is Commit <==> bad@.len() == 0 && listed@.len() > 0,
{
    assert(text::texts(bad@).len() == bad@.len());
    assert(text::texts(listed@).len() == listed@.len());
}

/// A branch is submitted only where it changes files, and only such as the surface allows.
pub proof fn what_a_candidate_may_change(
    surface: EditableSurface,
    diff: &str,
    default: &str,
    branch: &str,
    number: u64,
    bad: Vec<String>,
    listed: Vec<String>,
    r: Result<(), String>,
)
    requires
        call_ensures(submit::ensure_submittable, (&surface, diff, default, branch, number), r),
        call_ensures(
            EditableSurface::validate_staged_files,
            (&surface, diff),
            Ok::<Vec<String>, String>(bad),
        ),
        call_ensures(editable_surface::parse_output_lines, (diff,), listed),
    ensures
        r is Ok <==> listed@.len() > 0 && bad@.len() == 0,
{
    assert(text::texts(bad@).len() == bad@.len());
    assert(text::texts(listed@).len() == listed@.len());
}

/// A commit never holds a change of a file of the evaluation.
pub proof fn no_commit_changes_the_evaluation(
    program: ProgramSpec,
    path: &str,
    r: Result<bool, String>,
)
    requires
        call_ensures(commit::is_allowed, (&program, path), r),
        is_of_evaluation(path@),
    ensures
        r == Ok::<bool, String>(false),
{
    let places = editable_surface::always_protected();
    let k: int = if text::begins(path@, ".polyresearch/"@) {
        0
    } else if path@ == ".polyresearch-node.toml"@ {
        1
    } else if path@ == "PROGRAM.md"@ {
        2
    } else {
        3
    };
    assert(path@.take(path@.len() as int) =~= path@);
    assert(commit::lies_in(path@, places[k]));
}

proof fn lemma_uncommittable(program: ProgramSpec, paths: Seq<Seq<char>>)
    ensures
        commit::uncommittable(program, paths).len() == 0 <==> forall|i: int|
            0 <= i < paths.len() ==> editable_surface::usable(text::texts(program.can_modify@))
                && commit::committable(program, #[trigger] paths[i]),
    decreases paths.len(),
{
    if paths.len() > 0 {
        let rest = paths.drop_last();
        lemma_uncommittable(program, rest);
        assert(paths[paths.len() - 1] == paths.last());
        assert(forall|i: int| 0 <= i < rest.len() ==> #[trigger] rest[i] == paths[i]);
        if commit::uncommittable(program, paths).len() == 0 {
            assert forall|i: int| 0 <= i < paths.len() implies editable_surface::usable(
                text::texts(program.can_modify@),
            ) && commit::committable(program, #[trigger] paths[i]) by {
                if i < rest.len() {
                    assert(rest[i] == paths[i]);
                }
            }
        }
    }
}

/// What was staged is committed only where each file of it may be; where one may not, everything is
/// to be unstaged. Nothing is no commit.
pub proof fn what_may_be_committed(
    program: ProgramSpec,
    staged: Vec<String>,
    r: Result<(), (String, bool)>,
    i: int,
    path: &str,
    ok: Result<bool, String>,
)
    requires
        call_ensures(commit::ensure_committable, (&program, &staged), r),
        0 <= i < staged@.len(),
        path@ == staged@[i]@,
        call_ensures(commit::is_allowed, (&program, path), ok),
    ensures
        r is Ok ==> ok == Ok::<bool, String>(true),
        ok != Ok::<bool, String>(true) ==> (r matches Err(e) && e.1),
{
    let all = text::texts(staged@);
    lemma_uncommittable(program, all);
    assert(all[i] == path@);
}

/// Without anything staged there is nothing to commit, and nothing to unstage.
pub proof fn nothing_staged_is_no_commit(
    program: ProgramSpec,
    staged: Vec<String>,
    r: Result<(), (String, bool)>,
)
    requires
        call_ensures(commit::ensure_committable, (&program, &staged), r),
        staged@.len() == 0,
    ensures
        r matches Err(e) && !e.1,
{
    assert(text::texts(staged@).len() == 0);
}

} // verus!
