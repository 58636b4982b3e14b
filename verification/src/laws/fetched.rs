//! What holds of a project's state that was derived from what was fetched of it.
use crate::config::ProtocolConfig;
use crate::github::{Issue, IssueComment, PullRequest};
use crate::laws::projects;
use crate::laws::projects::{holds_one, in_queue, is_accepted_attempt};
use crate::laws::theses::good_as;
use crate::metric;
use crate::state;
use crate::state::{RepositoryState, ThesisState};
use crate::text;
use crate::time::Timestamp;
use std::collections::HashMap;
use vstd::prelude::*;

verus! {

proof fn lemma_without(map: Map<u64, Vec<IssueComment>>, numbers: Seq<u64>, n: u64)
    ensures
        state::without_numbers(map, numbers).contains_key(n) <==> map.contains_key(n)
            && !numbers.contains(n),
        !numbers.contains(n) && map.contains_key(n) ==> state::without_numbers(map, numbers)[n]
            == map[n],
    decreases numbers.len(),
{
    if numbers.len() > 0 {
        let rest = numbers.drop_last();
        lemma_without(map, rest, n);
        if numbers.contains(n) {
            let k = choose|k: int| 0 <= k < numbers.len() && numbers[k] == n;
            if k < rest.len() {
                assert(rest[k] == n);
            }
        }
        if rest.contains(n) {
            let k = choose|k: int| 0 <= k < rest.len() && rest[k] == n;
            assert(numbers[k] == n);
        }
        assert(numbers[numbers.len() - 1] == numbers.last());
    }
}

/// A project's state shows each issue that was fetched as one thesis, by number, and counts the
/// candidates and the queue; its nodes are those with a claim, and its best metric is the best of
/// those that were accepted. The comments of what was fetched are used up, and no others.
pub proof fn what_a_fetched_project_shows(
    issues: Vec<Issue>,
    prs: Vec<PullRequest>,
    issue_comments: &mut HashMap<u64, Vec<IssueComment>>,
    pr_comments: &mut HashMap<u64, Vec<IssueComment>>,
    config: ProtocolConfig,
    now: Timestamp,
    r: Result<RepositoryState, String>,
    n: int,
    node: Seq<char>,
    number: u64,
)
    requires
        call_ensures(
            RepositoryState::derive_from_fetched,
            (issues, prs, issue_comments, pr_comments, &config, now),
            r,
        ),
    ensures
        r is Ok,
        ({
            let s = r->Ok_0;
            &&& s.theses@.len() == issues@.len()
            &&& s.pull_request_count == prs@.len()
            &&& 0 <= n < issues@.len() ==> exists|i: int|
                0 <= i < s.theses@.len() && (#[trigger] s.theses@[i]).issue == issues@[n]
            &&& forall|i: int, j: int|
                0 <= i < j < s.theses@.len() ==> (#[trigger] s.theses@[i]).issue.number <= (
                #[trigger] s.theses@[j]).issue.number
            &&& s.queue_depth == s.theses@.filter(|t: ThesisState| in_queue(t, config)).len()
            &&& text::texts(s.active_nodes@).contains(node) <==> holds_one(s.theses@, node)
            &&& s.current_best_accepted_metric is Some <==> exists|i: int, k: int|
                0 <= i < s.theses@.len() && #[trigger] is_accepted_attempt(s.theses@[i], k)
            &&& s.current_best_accepted_metric matches Some(m) ==> (exists|i: int, k: int|
                0 <= i < s.theses@.len() && #[trigger] is_accepted_attempt(s.theses@[i], k)
                    && s.theses@[i].attempts@[k].metric == m)
            &&& s.current_best_accepted_metric matches Some(m) ==> (forall|i: int, k: int|
                0 <= i < s.theses@.len() && #[trigger] is_accepted_attempt(s.theses@[i], k)
                    && !metric::not_a_number(s.theses@[i].attempts@[k].metric.bits) ==> good_as(
                    m.bits,
                    s.theses@[i].attempts@[k].metric.bits,
                    config.metric_direction,
                ))
        }),
        final(issue_comments)@.contains_key(number) <==> old(issue_comments)@.contains_key(number)
            && !exists|i: int| 0 <= i < issues@.len() && (#[trigger] issues@[i]).number == number,
        final(pr_comments)@.contains_key(number) <==> old(pr_comments)@.contains_key(number)
            && !exists|i: int| 0 <= i < prs@.len() && (#[trigger] prs@[i]).number == number,
{
    broadcast use vstd::seq_lib::group_to_multiset_ensures;

    let s = r->Ok_0;
    let (candidates, theses) = projects::everything_that_was_fetched_is_gathered(
        s,
        issues@,
        prs@,
        old(issue_comments)@,
        old(pr_comments)@,
        config,
        now,
    );
    projects::theses_stand_by_number(s, candidates, theses, config);
    projects::the_queue_counts_what_waits(s, candidates, theses, config);
    projects::active_nodes_hold_theses(s, candidates, theses, config, node);
    projects::the_best_accepted_metric_of_a_project(s, candidates, theses, config);
    lemma_each_issue(s, issues@, prs@, old(issue_comments)@, old(pr_comments)@, config, now, n);
    let a = state::issue_numbers(issues@);
    let b = state::pr_numbers(prs@);
    lemma_without(old(issue_comments)@, a, number);
    lemma_without(old(pr_comments)@, b, number);
    if a.contains(number) {
        let k = choose|k: int| 0 <= k < a.len() && a[k] == number;
        assert(issues@[k].number == number);
    }
    if exists|i: int| 0 <= i < issues@.len() && (#[trigger] issues@[i]).number == number {
        let k = choose|i: int|
            0 <= i < issues@.len() && (#[trigger] issues@[i]).number == number;
        assert(a[k] == number);
    }
    if b.contains(number) {
        let k = choose|k: int| 0 <= k < b.len() && b[k] == number;
        assert(prs@[k].number == number);
    }
    if exists|i: int| 0 <= i < prs@.len() && (#[trigger] prs@[i]).number == number {
        let k = choose|i: int| 0 <= i < prs@.len() && (#[trigger] prs@[i]).number == number;
        assert(b[k] == number);
    }
}

proof fn lemma_each_issue(
    s: RepositoryState,
    issues: Seq<Issue>,
    prs: Seq<PullRequest>,
    issue_comments: Map<u64, Vec<IssueComment>>,
    pr_comments: Map<u64, Vec<IssueComment>>,
    config: ProtocolConfig,
    now: Timestamp,
    n: int,
)
    requires
        s.derived(issues, prs, issue_comments, pr_comments, config, now),
    ensures
        0 <= n < issues.len() ==> exists|i: int|
            0 <= i < s.theses@.len() && (#[trigger] s.theses@[i]).issue == issues[n],
{
    broadcast use vstd::seq_lib::group_to_multiset_ensures;

    if 0 <= n < issues.len() {
        let (candidates, theses) = choose|
            candidates: Seq<state::PullRequestState>,
            theses: Seq<ThesisState>,
        |
            {
                &&& #[trigger] s.gathers(candidates, theses, config)
                &&& candidates.len() == prs.len()
                &&& theses.len() == issues.len()
                &&& forall|i: int|
                    0 <= i < prs.len() ==> (#[trigger] candidates[i]).derived(
                        prs[i],
                        state::fetched(state::pr_numbers(prs), i, pr_comments),
                        config,
                    )
                &&& forall|i: int|
                    0 <= i < issues.len() ==> (#[trigger] theses[i]).derived(
                        issues[i],
                        state::fetched(state::issue_numbers(issues), i, issue_comments),
                        state::pull_request_views(candidates),
                        config,
                        now,
                    )
            };
        let t = theses[n];
        assert(t.derived(
            issues[n],
            state::fetched(state::issue_numbers(issues), n, issue_comments),
            state::pull_request_views(candidates),
            config,
            now,
        ));
        assert(t.issue == issues[n]);
        crate::sort::sorted_is_ordered_and_complete(theses);
        assert(theses.contains(t));
        assert(theses.to_multiset().contains(t));
        assert(s.theses@.contains(t));
        let i = choose|i: int| 0 <= i < s.theses@.len() && s.theses@[i] == t;
        assert(s.theses@[i].issue == issues[n]);
    }
}

} // verus!
