//! What holds of the ledger of results.
use crate::comments::{Observation, Outcome};
use crate::config::MetricDirection;
use crate::laws::theses::{before, good_as};
use crate::ledger;
use crate::ledger::{Ledger, LedgerRow, RowView};
use crate::metric;
use crate::metric::Metric;
use crate::state;
use crate::state::{AttemptRecord, RepositoryState, ThesisState};
use crate::text;
use vstd::prelude::*;

verus! {

/// The candidate at the place is the first one on the attempt's branch.
pub open spec fn candidate_of(t: ThesisState, a: AttemptRecord, k: int) -> bool {
    &&& 0 <= k < t.pull_requests@.len()
    &&& t.pull_requests@[k].pr.head_ref_name@ == a.branch@
    &&& forall|j: int|
        0 <= j < k ==> (#[trigger] t.pull_requests@[j]).pr.head_ref_name@ != a.branch@
}

/// The attempt has a candidate.
pub open spec fn has_candidate(t: ThesisState, a: AttemptRecord) -> bool {
    exists|k: int|
        0 <= k < t.pull_requests@.len() && (#[trigger] t.pull_requests@[k]).pr.head_ref_name@
            == a.branch@
}

/// The attempt's candidate was decided with the outcome.
pub open spec fn decided_as(t: ThesisState, a: AttemptRecord, o: Outcome) -> bool {
    exists|k: int|
        #[trigger] candidate_of(t, a, k) && (t.pull_requests@[k].decision matches Some(d)
            && d.outcome == o)
}

/// The attempt's candidate was decided.
pub open spec fn was_decided(t: ThesisState, a: AttemptRecord) -> bool {
    exists|k: int| #[trigger] candidate_of(t, a, k) && t.pull_requests@[k].decision is Some
}

/// The attempt did not come to a measurement.
pub open spec fn came_to_nothing(a: AttemptRecord) -> bool {
    a.observation == Observation::Crashed || a.observation == Observation::InfraFailure
}

/// The thesis was released, not before the attempt.
pub open spec fn released_after(t: ThesisState, a: AttemptRecord) -> bool {
    exists|i: int|
        0 <= i < t.releases@.len() && !before(
            (#[trigger] t.releases@[i]).created_at,
            a.created_at,
        )
}

/// The attempt has come to an end: its candidate was decided, it came to nothing, its thesis was
/// released, or its thesis was closed without a candidate for it.
pub open spec fn ended(t: ThesisState, a: AttemptRecord) -> bool {
    was_decided(t, a) || came_to_nothing(a) || released_after(t, a) || (t.issue.state@ == "CLOSED"@
        && !has_candidate(t, a))
}

/// The row tells of the attempt: its thesis, its branch, its own metric unless it came to nothing,
/// its baseline, how it ended, and its summary.
pub open spec fn tells(t: ThesisState, a: AttemptRecord, row: RowView) -> bool {
    &&& row.thesis == "#"@ + text::decimal(t.issue.number as nat)
    &&& row.attempt == a.branch@
    &&& !came_to_nothing(a) ==> row.metric == a.metric.text@
    &&& came_to_nothing(a) ==> row.metric == "\u{2014}"@
    &&& a.baseline_metric matches Some(b) ==> row.baseline == b.text@
    &&& a.baseline_metric is None ==> row.baseline == "N/A"@
    &&& decided_as(t, a, Outcome::Accepted) ==> row.status == "accepted"@
    &&& decided_as(t, a, Outcome::NonImprovement) ==> row.status == "non_improvement"@
    &&& decided_as(t, a, Outcome::Disagreement) ==> row.status == "disagreement"@
    &&& decided_as(t, a, Outcome::Stale) ==> row.status == "stale"@
    &&& decided_as(t, a, Outcome::PolicyRejection) ==> row.status == "policy_rejection"@
    &&& decided_as(t, a, Outcome::InfraFailure) ==> row.status == "infra_failure"@
    &&& !was_decided(t, a) && a.observation == Observation::Crashed ==> row.status == "crashed"@
    &&& !was_decided(t, a) && a.observation == Observation::InfraFailure ==> row.status
        == "infra_failure"@
    &&& !was_decided(t, a) && !came_to_nothing(a) ==> row.status == "discarded"@
    &&& row.summary == a.summary@
}

/// The attempts at a thesis that have come to an end.
pub open spec fn ended_attempts(t: ThesisState) -> Seq<AttemptRecord> {
    t.attempts@.filter(|a: AttemptRecord| ended(t, a))
}

proof fn lemma_candidate(t: ThesisState, a: AttemptRecord, from: int)
    requires
        0 <= from,
        forall|j: int|
            0 <= j < from && j < t.pull_requests@.len() ==> (
            #[trigger] t.pull_requests@[j]).pr.head_ref_name@ != a.branch@,
    ensures
        match ledger::first_candidate(t.pull_requests@, a.branch@, from) {
            Some(k) => candidate_of(t, a, k) && has_candidate(t, a),
            None => !has_candidate(t, a),
        },
    decreases t.pull_requests@.len() - from,
{
    if from < t.pull_requests@.len() && t.pull_requests@[from].pr.head_ref_name@ != a.branch@ {
        lemma_candidate(t, a, from + 1);
    }
}

proof fn lemma_row(t: ThesisState, a: AttemptRecord)
    ensures
        ledger::row_for(t, a) is Some <==> ended(t, a),
        ledger::row_for(t, a) matches Some(row) ==> tells(t, a, row),
{
    lemma_candidate(t, a, 0);
    let first = ledger::first_candidate(t.pull_requests@, a.branch@, 0);
    assert forall|k: int| #[trigger] candidate_of(t, a, k) implies first == Some(k) by {
        assert(has_candidate(t, a));
        let f = first->Some_0;
        assert(candidate_of(t, a, f));
        if f < k {
            assert(t.pull_requests@[f].pr.head_ref_name@ != a.branch@);
        } else if k < f {
            assert(t.pull_requests@[k].pr.head_ref_name@ != a.branch@);
        }
    }
    assert(released_after(t, a) <==> ledger::released_since(t, a)) by {
        if released_after(t, a) {
            let i = choose|i: int|
                0 <= i < t.releases@.len() && !before(
                    (#[trigger] t.releases@[i]).created_at,
                    a.created_at,
                );
            assert(!t.releases@[i].created_at.earlier(a.created_at));
        }
        if ledger::released_since(t, a) {
            let i = choose|i: int|
                0 <= i < t.releases@.len() && !(#[trigger] t.releases@[i]).created_at.earlier(
                    a.created_at,
                );
            assert(!before(t.releases@[i].created_at, a.created_at));
        }
    }
}

proof fn lemma_rows(t: ThesisState, attempts: Seq<AttemptRecord>)
    ensures
        ({
            let rows = ledger::thesis_rows(t, attempts);
            let over = attempts.filter(|a: AttemptRecord| ended(t, a));
            &&& rows.len() == over.len()
            &&& forall|k: int| 0 <= k < rows.len() ==> tells(t, over[k], #[trigger] rows[k])
        }),
    decreases attempts.len(),
{
    reveal(Seq::filter);
    if attempts.len() > 0 {
        lemma_rows(t, attempts.drop_last());
        lemma_row(t, attempts.last());
    }
}

/// The rows of a thesis are those of its attempts that have come to an end, one for each and in
/// their order, and each tells of its attempt.
pub proof fn each_ended_attempt_has_its_row(t: ThesisState, r: Vec<LedgerRow>)
    requires
        call_ensures(ledger::rows_for_thesis, (&t,), r),
    ensures
        r@.len() == ended_attempts(t).len(),
        forall|k: int| 0 <= k < r@.len() ==> tells(t, ended_attempts(t)[k], (#[trigger] r@[k])@),
{
    lemma_rows(t, t.attempts@);
    assert forall|k: int| 0 <= k < r@.len() implies tells(
        t,
        ended_attempts(t)[k],
        (#[trigger] r@[k])@,
    ) by {
        assert(ledger::row_views(r@)[k] == r@[k]@);
    }
}

/// The metric column of an ended attempt that came to a measurement shows the attempt's own metric,
/// whatever its baseline is: two rows have the same metric column exactly where the metrics of
/// their attempts have the same text, so two attempts that differ only in the baseline have the
/// same one, and two that differ in the text of the metric have different ones.
pub proof fn the_metric_column_is_the_own_metric(
    t: ThesisState,
    r: Vec<LedgerRow>,
    k: int,
    other: ThesisState,
    other_r: Vec<LedgerRow>,
    m: int,
)
    requires
        call_ensures(ledger::rows_for_thesis, (&t,), r),
        call_ensures(ledger::rows_for_thesis, (&other,), other_r),
        0 <= k < ended_attempts(t).len(),
        0 <= m < ended_attempts(other).len(),
        !came_to_nothing(ended_attempts(t)[k]),
        !came_to_nothing(ended_attempts(other)[m]),
    ensures
        r@[k].metric@ == ended_attempts(t)[k].metric.text@,
        r@[k].metric@ == other_r@[m].metric@ <==> ended_attempts(t)[k].metric.text@
            == ended_attempts(other)[m].metric.text@,
{
    each_ended_attempt_has_its_row(t, r);
    each_ended_attempt_has_its_row(other, other_r);
    assert(tells(t, ended_attempts(t)[k], r@[k]@));
    assert(tells(other, ended_attempts(other)[m], other_r@[m]@));
}

/// The baseline column shows the attempt's own baseline, whatever its metric is.
pub proof fn the_baseline_column_is_the_own_baseline(t: ThesisState, r: Vec<LedgerRow>, k: int)
    requires
        call_ensures(ledger::rows_for_thesis, (&t,), r),
        0 <= k < ended_attempts(t).len(),
    ensures
        ended_attempts(t)[k].baseline_metric matches Some(b) ==> r@[k].baseline@ == b.text@,
        ended_attempts(t)[k].baseline_metric is None ==> r@[k].baseline@ == "N/A"@,
{
    each_ended_attempt_has_its_row(t, r);
    assert(tells(t, ended_attempts(t)[k], r@[k]@));
}

/// The branch has a row in the ledger.
pub open spec fn is_listed(l: Ledger, branch: Seq<char>) -> bool {
    exists|i: int| 0 <= i < l.rows@.len() && (#[trigger] l.rows@[i]).attempt@ == branch
}

proof fn lemma_missing(l: Ledger, wanted: Seq<RowView>)
    ensures
        ledger::missing_from(l.rows@, wanted) == wanted.filter(
            |w: RowView| !is_listed(l, w.attempt),
        ),
    decreases wanted.len(),
{
    reveal(Seq::filter);
    if wanted.len() > 0 {
        lemma_missing(l, wanted.drop_last());
    }
}

proof fn lemma_all_rows(theses: Seq<ThesisState>)
    ensures
        ledger::all_rows(theses) == theses.map_values(
            |t: ThesisState| ledger::thesis_rows(t, t.attempts@),
        ).flatten(),
    decreases theses.len(),
{
    let f = |t: ThesisState| ledger::thesis_rows(t, t.attempts@);
    if theses.len() > 0 {
        let rest = theses.drop_last();
        lemma_all_rows(rest);
        assert(theses.map_values(f) =~= rest.map_values(f).push(f(theses.last())));
        rest.map_values(f).lemma_flatten_push(f(theses.last()));
    } else {
        assert(theses.map_values(f) =~= Seq::empty());
    }
}

/// The rows that a ledger lacks are those of all theses, each with its rows and in their order,
/// without those of branches that it lists already.
pub proof fn missing_rows_are_those_not_listed(
    l: Ledger,
    s: RepositoryState,
    r: Vec<LedgerRow>,
    rows: Seq<Vec<LedgerRow>>,
)
    requires
        call_ensures(Ledger::missing_rows, (&l, &s), r),
        rows.len() == s.theses@.len(),
        forall|i: int|
            0 <= i < rows.len() ==> call_ensures(
                ledger::rows_for_thesis,
                (&s.theses@[i],),
                #[trigger] rows[i],
            ),
    ensures
        r@.map_values(|x: LedgerRow| x@) == rows.map_values(
            |v: Vec<LedgerRow>| v@.map_values(|x: LedgerRow| x@),
        ).flatten().filter(|w: RowView| !is_listed(l, w.attempt)),
{
    let f = |t: ThesisState| ledger::thesis_rows(t, t.attempts@);
    let g = |v: Vec<LedgerRow>| v@.map_values(|x: LedgerRow| x@);
    lemma_missing(l, ledger::all_rows(s.theses@));
    lemma_all_rows(s.theses@);
    assert(s.theses@.map_values(f) =~= rows.map_values(g)) by {
        assert forall|i: int| 0 <= i < rows.len() implies s.theses@.map_values(f)[i]
            == rows.map_values(g)[i] by {
            assert(ledger::row_views(rows[i]@) =~= g(rows[i]));
            assert(call_ensures(ledger::rows_for_thesis, (&s.theses@[i],), rows[i]));
        }
    }
    assert(ledger::row_views(r@) =~= r@.map_values(|x: LedgerRow| x@));
}

/// A ledger is current exactly where it lists every attempt that has come to an end.
pub proof fn a_current_ledger_lists_every_ended_attempt(l: Ledger, s: RepositoryState, r: bool)
    requires
        call_ensures(Ledger::is_current, (&l, &s), r),
    ensures
        r <==> forall|i: int, j: int|
            #![trigger s.theses@[i].attempts@[j]]
            0 <= i < s.theses@.len() && 0 <= j < s.theses@[i].attempts@.len() && ended(
                s.theses@[i],
                s.theses@[i].attempts@[j],
            ) ==> is_listed(l, s.theses@[i].attempts@[j].branch@),
{
    let wanted = ledger::all_rows(s.theses@);
    lemma_missing(l, wanted);
    let p = |w: RowView| !is_listed(l, w.attempt);
    wanted.lemma_filter_len(p);
    lemma_listed(l, s.theses@);
    if r {
        assert forall|k: int| 0 <= k < wanted.len() implies is_listed(
            l,
            (#[trigger] wanted[k]).attempt,
        ) by {
            if p(wanted[k]) {
                wanted.lemma_filter_contains(p, k);
            }
        }
    } else {
        let kept = wanted.filter(p);
        assert(kept.len() > 0);
        lemma_kept_some(wanted, p);
    }
}

proof fn lemma_kept_some(s: Seq<RowView>, p: spec_fn(RowView) -> bool)
    requires
        s.filter(p).len() > 0,
    ensures
        exists|k: int| 0 <= k < s.len() && p(#[trigger] s[k]),
    decreases s.len(),
{
    reveal(Seq::filter);
    if s.len() > 0 {
        if p(s.last()) {
            assert(p(s[s.len() - 1]));
        } else {
            lemma_kept_some(s.drop_last(), p);
            let k = choose|k: int| 0 <= k < s.drop_last().len() && p(#[trigger] s.drop_last()[k]);
            assert(p(s[k]));
        }
    }
}

/// Every row of the theses is listed exactly where every ended attempt is.
proof fn lemma_listed(l: Ledger, theses: Seq<ThesisState>)
    ensures
        (forall|k: int|
            0 <= k < ledger::all_rows(theses).len() ==> is_listed(
                l,
                (#[trigger] ledger::all_rows(theses)[k]).attempt,
            )) <==> (forall|i: int, j: int|
            #![trigger theses[i].attempts@[j]]
            0 <= i < theses.len() && 0 <= j < theses[i].attempts@.len() && ended(
                theses[i],
                theses[i].attempts@[j],
            ) ==> is_listed(l, theses[i].attempts@[j].branch@)),
    decreases theses.len(),
{
    if theses.len() > 0 {
        let rest = theses.drop_last();
        let t = theses.last();
        let n = theses.len() - 1;
        let a = ledger::all_rows(rest);
        let b = ledger::thesis_rows(t, t.attempts@);
        let all = ledger::all_rows(theses);
        lemma_listed(l, rest);
        lemma_listed_one(l, t, t.attempts@);
        let rows_listed = forall|k: int|
            0 <= k < all.len() ==> is_listed(l, (#[trigger] all[k]).attempt);
        let ended_listed = forall|i: int, j: int|
            #![trigger theses[i].attempts@[j]]
            0 <= i < theses.len() && 0 <= j < theses[i].attempts@.len() && ended(
                theses[i],
                theses[i].attempts@[j],
            ) ==> is_listed(l, theses[i].attempts@[j].branch@);
        if rows_listed {
            assert forall|k: int| 0 <= k < a.len() implies is_listed(l, (#[trigger] a[k]).attempt) by {
                assert(all[k] == a[k]);
            }
            assert forall|k: int| 0 <= k < b.len() implies is_listed(l, (#[trigger] b[k]).attempt) by {
                assert(all[a.len() + k] == b[k]);
            }
            assert forall|i: int, j: int|
                #![trigger theses[i].attempts@[j]]
                0 <= i < theses.len() && 0 <= j < theses[i].attempts@.len() && ended(
                    theses[i],
                    theses[i].attempts@[j],
                ) implies is_listed(l, theses[i].attempts@[j].branch@) by {
                if i < n {
                    assert(rest[i].attempts@[j] == theses[i].attempts@[j]);
                } else {
                    assert(t.attempts@[j] == theses[i].attempts@[j]);
                }
            }
        }
        if ended_listed {
            assert forall|i: int, j: int|
                #![trigger rest[i].attempts@[j]]
                0 <= i < rest.len() && 0 <= j < rest[i].attempts@.len() && ended(
                    rest[i],
                    rest[i].attempts@[j],
                ) implies is_listed(l, rest[i].attempts@[j].branch@) by {
                assert(rest[i].attempts@[j] == theses[i].attempts@[j]);
            }
            assert forall|j: int|
                0 <= j < t.attempts@.len() && ended(t, #[trigger] t.attempts@[j]) implies is_listed(
                l,
                t.attempts@[j].branch@,
            ) by {
                assert(theses[n].attempts@[j] == t.attempts@[j]);
            }
            assert forall|k: int| 0 <= k < all.len() implies is_listed(
                l,
                (#[trigger] all[k]).attempt,
            ) by {
                if k < a.len() {
                    assert(all[k] == a[k]);
                } else {
                    assert(all[k] == b[k - a.len()]);
                }
            }
        }
    }
}

proof fn lemma_listed_one(l: Ledger, t: ThesisState, attempts: Seq<AttemptRecord>)
    ensures
        (forall|k: int|
            0 <= k < ledger::thesis_rows(t, attempts).len() ==> is_listed(
                l,
                (#[trigger] ledger::thesis_rows(t, attempts)[k]).attempt,
            )) <==> (forall|j: int|
            0 <= j < attempts.len() && ended(t, #[trigger] attempts[j]) ==> is_listed(
                l,
                attempts[j].branch@,
            )),
    decreases attempts.len(),
{
    if attempts.len() > 0 {
        let rest = attempts.drop_last();
        let a = attempts.last();
        lemma_listed_one(l, t, rest);
        lemma_row(t, a);
        let before = ledger::thesis_rows(t, rest);
        let rows = ledger::thesis_rows(t, attempts);
        if forall|k: int| 0 <= k < rows.len() ==> is_listed(l, (#[trigger] rows[k]).attempt) {
            assert forall|k: int| 0 <= k < before.len() implies is_listed(
                l,
                (#[trigger] before[k]).attempt,
            ) by {
                assert(rows[k] == before[k]);
            }
            assert forall|j: int| 0 <= j < attempts.len() && ended(t, #[trigger] attempts[j]) implies is_listed(
                l,
                attempts[j].branch@,
            ) by {
                if j < rest.len() {
                    assert(rest[j] == attempts[j]);
                } else {
                    assert(rows[before.len() as int].attempt == a.branch@);
                }
            }
        }
        if forall|j: int|
            0 <= j < attempts.len() && ended(t, #[trigger] attempts[j]) ==> is_listed(
                l,
                attempts[j].branch@,
            ) {
            assert forall|j: int| 0 <= j < rest.len() && ended(t, #[trigger] rest[j]) implies is_listed(
                l,
                rest[j].branch@,
            ) by {
                assert(rest[j] == attempts[j]);
            }
            assert(attempts[attempts.len() - 1] == a);
            assert forall|k: int| 0 <= k < rows.len() implies is_listed(
                l,
                (#[trigger] rows[k]).attempt,
            ) by {
                if k < before.len() {
                    assert(rows[k] == before[k]);
                }
            }
        }
    }
}

/// The row counts: it is accepted, its branch was not invalidated, and its metric could be read.
pub open spec fn counts(
    row: LedgerRow,
    reading: Option<Metric>,
    invalidated: Seq<String>,
) -> bool {
    &&& row.status@ == "accepted"@
    &&& reading is Some
    &&& !exists|i: int| 0 <= i < invalidated.len() && (#[trigger] invalidated[i])@ == row.attempt@
}

/// A row that counts was read as the metric.
pub open spec fn was_read(
    rows: Seq<LedgerRow>,
    readings: Seq<Option<Metric>>,
    invalidated: Seq<String>,
    m: Metric,
) -> bool {
    exists|i: int|
        0 <= i < rows.len() && counts(#[trigger] rows[i], readings[i], invalidated) && readings[i]
            == Some(m)
}

proof fn lemma_counted(
    rows: Seq<LedgerRow>,
    readings: Seq<Option<Metric>>,
    invalidated: Seq<String>,
)
    requires
        rows.len() == readings.len(),
    ensures
        ({
            let c = Ledger::counted(rows, readings, text::texts(invalidated));
            &&& forall|k: int|
                0 <= k < c.len() ==> was_read(rows, readings, invalidated, #[trigger] c[k])
            &&& forall|i: int|
                0 <= i < rows.len() && counts(#[trigger] rows[i], readings[i], invalidated)
                    ==> c.contains(readings[i]->Some_0)
        }),
    decreases rows.len(),
{
    if rows.len() > 0 {
        let n = rows.len() - 1;
        let q = rows.drop_last();
        let qr = readings.drop_last();
        let without = text::texts(invalidated);
        lemma_counted(q, qr, invalidated);
        let c = Ledger::counted(rows, readings, without);
        let d = Ledger::counted(q, qr, without);
        assert(without.contains(rows[n].attempt@) <==> exists|i: int|
            0 <= i < invalidated.len() && (#[trigger] invalidated[i])@ == rows[n].attempt@) by {
            if without.contains(rows[n].attempt@) {
                let i = choose|i: int| 0 <= i < without.len() && without[i] == rows[n].attempt@;
                assert(invalidated[i]@ == rows[n].attempt@);
            }
            if exists|i: int|
                0 <= i < invalidated.len() && (#[trigger] invalidated[i])@ == rows[n].attempt@ {
                let i = choose|i: int|
                    0 <= i < invalidated.len() && (#[trigger] invalidated[i])@ == rows[n].attempt@;
                assert(without[i] == rows[n].attempt@);
            }
        }
        assert forall|k: int| 0 <= k < c.len() implies was_read(
            rows,
            readings,
            invalidated,
            #[trigger] c[k],
        ) by {
            if k < d.len() {
                assert(c[k] == d[k]);
                assert(was_read(q, qr, invalidated, d[k]));
                let i = choose|i: int|
                    0 <= i < q.len() && counts(#[trigger] q[i], qr[i], invalidated) && qr[i]
                        == Some(d[k]);
                assert(counts(rows[i], readings[i], invalidated));
            } else {
                assert(counts(rows[n], readings[n], invalidated));
            }
        }
        assert forall|i: int|
            0 <= i < rows.len() && counts(#[trigger] rows[i], readings[i], invalidated) implies c.contains(
            readings[i]->Some_0,
        ) by {
            if i < n {
                assert(counts(q[i], qr[i], invalidated));
                assert(d.contains(qr[i]->Some_0));
                let k = choose|k: int| 0 <= k < d.len() && d[k] == qr[i]->Some_0;
                assert(c[k] == readings[i]->Some_0);
            } else {
                assert(c[d.len() as int] == readings[i]->Some_0);
            }
        }
    }
}

/// The best accepted metric is that of a row that counts, and at least as good as the number of
/// every row that counts; there is none exactly where no row counts.
pub proof fn the_best_accepted_metric_is_the_best(
    l: Ledger,
    readings: Vec<Option<Metric>>,
    direction: MetricDirection,
    invalidated: Vec<String>,
    r: Option<Metric>,
)
    requires
        readings.len() == l.rows.len(),
        call_ensures(
            Ledger::best_accepted_metric_excluding,
            (&l, &readings, direction, &invalidated),
            r,
        ),
    ensures
        r is None <==> !exists|i: int|
            0 <= i < l.rows@.len() && counts(#[trigger] l.rows@[i], readings@[i], invalidated@),
        r matches Some(m) ==> was_read(l.rows@, readings@, invalidated@, m) && (forall|i: int|
            0 <= i < l.rows@.len() && counts(#[trigger] l.rows@[i], readings@[i], invalidated@)
                && !metric::not_a_number(readings@[i]->Some_0.bits) ==> good_as(
                m.bits,
                readings@[i]->Some_0.bits,
                direction,
            )),
{
    let c = Ledger::counted(l.rows@, readings@, text::texts(invalidated@));
    lemma_counted(l.rows@, readings@, invalidated@);
    if c.len() > 0 {
        state::best_is_as_good_as_all(c, direction);
        let m = r->Some_0;
        let k = choose|k: int| 0 <= k < c.len() && c[k] == m;
        assert(was_read(l.rows@, readings@, invalidated@, c[k]));
        assert forall|i: int|
            0 <= i < l.rows@.len() && counts(#[trigger] l.rows@[i], readings@[i], invalidated@)
                && !metric::not_a_number(readings@[i]->Some_0.bits) implies good_as(
            m.bits,
            readings@[i]->Some_0.bits,
            direction,
        ) by {
            let x = readings@[i]->Some_0;
            assert(c.contains(x));
            let j = choose|j: int| 0 <= j < c.len() && c[j] == x;
            assert(state::as_good(m, c[j], direction));
        }
    }
}

/// Nothing is invalidated where no branches are given.
pub proof fn the_best_of_all_rows(
    l: Ledger,
    readings: Vec<Option<Metric>>,
    direction: MetricDirection,
    none: Vec<String>,
    r: Option<Metric>,
    s: Option<Metric>,
)
    requires
        readings.len() == l.rows.len(),
        none@.len() == 0,
        call_ensures(Ledger::best_accepted_metric, (&l, &readings, direction), r),
        call_ensures(
            Ledger::best_accepted_metric_excluding,
            (&l, &readings, direction, &none),
            s,
        ),
    ensures
        r == s,
{
    assert(text::texts(none@) =~= Seq::<Seq<char>>::empty());
}

/// A line gives a row where it is not blank and has six fields between tabs.
pub open spec fn is_row_line(line: Seq<char>) -> bool {
    text::trimmed(line).len() > 0 && text::pieces(line, "\t"@).len() == 6
}

proof fn lemma_loaded(lines: Seq<Seq<char>>)
    ensures
        ({
            let rows = ledger::rows_of(lines);
            let kept = lines.filter(|l: Seq<char>| is_row_line(l));
            &&& rows.len() == kept.len()
            &&& forall|k: int|
                0 <= k < rows.len() ==> {
                    let row = #[trigger] rows[k];
                    text::pieces(kept[k], "\t"@) == seq![
                        row.thesis,
                        row.attempt,
                        row.metric,
                        row.baseline,
                        row.status,
                        row.summary,
                    ]
                }
        }),
    decreases lines.len(),
{
    reveal(Seq::filter);
    if lines.len() > 0 {
        lemma_loaded(lines.drop_last());
        let parts = text::pieces(lines.last(), "\t"@);
        if is_row_line(lines.last()) {
            assert(parts =~= seq![parts[0], parts[1], parts[2], parts[3], parts[4], parts[5]]);
        }
    }
}

/// The rows that are read are those of the lines after the heading that have six fields, in the
/// order of the columns: thesis, attempt, metric, baseline, status and summary.
pub proof fn rows_are_read_by_column(root: &str, contents: &str, r: Ledger)
    requires
        call_ensures(Ledger::load, (root, Some(contents)), r),
        text::lines_of(contents@).len() > 0,
    ensures
        ({
            let kept = text::lines_of(contents@).drop_first().filter(
                |l: Seq<char>| is_row_line(l),
            );
            &&& r.rows@.len() == kept.len()
            &&& forall|k: int|
                0 <= k < kept.len() ==> {
                    let row = #[trigger] r.rows@[k];
                    text::pieces(kept[k], "\t"@) == seq![
                        row.thesis@,
                        row.attempt@,
                        row.metric@,
                        row.baseline@,
                        row.status@,
                        row.summary@,
                    ]
                }
        }),
{
    lemma_loaded(text::lines_of(contents@).drop_first());
    let rows = ledger::rows_of(text::lines_of(contents@).drop_first());
    assert forall|k: int| 0 <= k < r.rows@.len() implies (#[trigger] r.rows@[k])@ == rows[k] by {
        assert(ledger::row_views(r.rows@)[k] == r.rows@[k]@);
    }
}

/// Where there is no file, there are no rows.
pub proof fn no_file_has_no_rows(root: &str, r: Ledger)
    requires
        call_ensures(Ledger::load, (root, None), r),
    ensures
        r.rows@.len() == 0,
{
    assert(ledger::row_views(r.rows@).len() == r.rows@.len());
}

/// A branch is found exactly where a row is for it.
pub proof fn a_listed_attempt_is_found(l: Ledger, branch: &str, r: bool)
    requires
        call_ensures(Ledger::contains_attempt, (&l, branch), r),
    ensures
        r <==> is_listed(l, branch@),
{
}

/// Adding rows keeps those that were there, in front of the new ones; adding those that are missing
/// makes a ledger current.
pub proof fn adding_what_is_missing_makes_a_ledger_current(
    l: &mut Ledger,
    before: &Ledger,
    after: &Ledger,
    s: &RepositoryState,
    missing: Vec<LedgerRow>,
    written: Option<String>,
    current: bool,
)
    requires
        *before == *old(l),
        *after == *final(l),
        call_ensures(Ledger::missing_rows, (before, s), missing),
        call_ensures(Ledger::append_rows, (l, &missing), written),
        call_ensures(Ledger::is_current, (after, s), current),
    ensures
        current,
        final(l).rows@ == old(l).rows@ + missing@,
        final(l).path == old(l).path,
        written is None <==> missing@.len() == 0,
{
    ledger::adding_missing_rows_makes_current(*old(l), missing@, *final(l), *s);
}

/// What is written of a ledger reads back as its rows, where these can be read: no column holds a
/// tab or a break.
pub proof fn a_written_ledger_is_read_back(
    l: &mut Ledger,
    rows: Vec<LedgerRow>,
    written: Option<String>,
    root: &str,
    contents: &str,
    back: Ledger,
)
    requires
        rows@.len() > 0,
        call_ensures(Ledger::append_rows, (l, &rows), written),
        written matches Some(t) ==> contents@ == t@,
        call_ensures(Ledger::load, (root, Some(contents)), back),
        forall|i: int| 0 <= i < final(l).rows@.len() ==> (#[trigger] final(l).rows@[i])@.readable(),
    ensures
        ledger::row_views(back.rows@) == ledger::row_views(final(l).rows@),
        back.rows@.len() == old(l).rows@.len() + rows@.len(),
{
    let all = ledger::row_views(final(l).rows@);
    assert(all.len() == final(l).rows@.len());
    assert(ledger::row_views(back.rows@).len() == back.rows@.len());
    assert forall|i: int| 0 <= i < all.len() implies (#[trigger] all[i]).readable() by {
        assert(all[i] == final(l).rows@[i]@);
    }
    ledger::written_ledger_reads_back(all);
}

} // verus!
