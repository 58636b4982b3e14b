//! The ledger of results, `results.tsv`: one row for each attempt that has come to an end.
use crate::comments::Observation;
use crate::config::MetricDirection;
use crate::metric::Metric;
use crate::paths;
use crate::state;
use crate::state::{AttemptRecord, PullRequestState, RepositoryState, ThesisState};
use crate::text;
use vstd::prelude::*;
use vstd::string::*;

verus! {

/// The ledger of results.
#[derive(Debug)]
pub struct Ledger {
    pub path: String,
    pub rows: Vec<LedgerRow>,
}

/// A row of the ledger.
#[derive(Debug, PartialEq, Eq)]
pub struct LedgerRow {
    pub thesis: String,
    pub attempt: String,
    pub metric: String,
    pub baseline: String,
    pub status: String,
    pub summary: String,
}

impl Clone for LedgerRow {
    fn clone(&self) -> (r: Self)
        ensures
            r == *self,
    {
        LedgerRow {
            thesis: self.thesis.clone(),
            attempt: self.attempt.clone(),
            metric: self.metric.clone(),
            baseline: self.baseline.clone(),
            status: self.status.clone(),
            summary: self.summary.clone(),
        }
    }
}

/// The contents of a row.
pub struct RowView {
    pub thesis: Seq<char>,
    pub attempt: Seq<char>,
    pub metric: Seq<char>,
    pub baseline: Seq<char>,
    pub status: Seq<char>,
    pub summary: Seq<char>,
}

impl View for LedgerRow {
    type V = RowView;

    open spec fn view(&self) -> RowView {
        RowView {
            thesis: self.thesis@,
            attempt: self.attempt@,
            metric: self.metric@,
            baseline: self.baseline@,
            status: self.status@,
            summary: self.summary@,
        }
    }
}

/// The contents of rows.
pub open spec fn row_views(v: Seq<LedgerRow>) -> Seq<RowView> {
    v.map_values(|r: LedgerRow| r@)
}

/// The row that a line gives: six fields between tabs.
pub open spec fn row_of(line: Seq<char>) -> Option<RowView> {
    let parts = text::pieces(line, "\t"@);
    if text::trimmed(line).len() > 0 && parts.len() == 6 {
        Some(
            RowView {
                thesis: parts[0],
                attempt: parts[1],
                metric: parts[2],
                baseline: parts[3],
                status: parts[4],
                summary: parts[5],
            },
        )
    } else {
        None
    }
}

/// The rows that lines give.
pub open spec fn rows_of(lines: Seq<Seq<char>>) -> Seq<RowView>
    decreases lines.len(),
{
    if lines.len() == 0 {
        Seq::empty()
    } else {
        let rest = rows_of(lines.drop_last());
        match row_of(lines.last()) {
            Some(r) => rest.push(r),
            None => rest,
        }
    }
}

/// The rows of a ledger file: those of all its lines but the first, which is the heading.
pub open spec fn ledger_rows(contents: Seq<char>) -> Seq<RowView> {
    let lines = text::lines_of(contents);
    if lines.len() == 0 {
        Seq::empty()
    } else {
        rows_of(lines.drop_first())
    }
}

/// The heading of a ledger file, with its line break.
pub open spec fn heading() -> Seq<char> {
    "thesis\tattempt\tmetric\tbaseline\tstatus\tsummary\n"@
}

impl RowView {
    /// The line of the row, with its line break.
    pub open spec fn line(self) -> Seq<char> {
        self.thesis + "\t"@ + self.attempt + "\t"@ + self.metric + "\t"@ + self.baseline + "\t"@
            + self.status + "\t"@ + self.summary + "\n"@
    }
}

/// The lines of rows.
pub open spec fn rows_text(rows: Seq<RowView>) -> Seq<char>
    decreases rows.len(),
{
    if rows.len() == 0 {
        heading()
    } else {
        rows_text(rows.drop_last()) + rows.last().line()
    }
}

fn parse_row(line: &str) -> (r: Option<LedgerRow>)
    ensures
        match r {
            Some(row) => row_of(line@) == Some(row@),
            None => row_of(line@) is None,
        },
{
    if text::trim(line).unicode_len() == 0 {
        return None;
    }
    let mut parts: Vec<String> = text::split(line, "\t");
    let ghost all = text::texts(parts@);
    if parts.len() != 6 {
        return None;
    }
    assert(all[0] == parts@[0]@ && all[1] == parts@[1]@ && all[2] == parts@[2]@ && all[3]
        == parts@[3]@ && all[4] == parts@[4]@ && all[5] == parts@[5]@);
    Some(
        LedgerRow {
            thesis: parts[0].clone(),
            attempt: parts[1].clone(),
            metric: parts[2].clone(),
            baseline: parts[3].clone(),
            status: parts[4].clone(),
            summary: parts[5].clone(),
        },
    )
}

/// How an attempt has ended; nothing where it has not.
pub open spec fn status_of(t: ThesisState, a: AttemptRecord) -> Option<Seq<char>> {
    match first_candidate(t.pull_requests@, a.branch@, 0) {
        Some(k) if t.pull_requests@[k].decision is Some => Some(
            t.pull_requests@[k].decision->Some_0.outcome.word(),
        ),
        _ => if a.observation == Observation::Crashed {
            Some("crashed"@)
        } else if a.observation == Observation::InfraFailure {
            Some("infra_failure"@)
        } else if released_since(t, a) || (t.issue.state@ == "CLOSED"@ && first_candidate(
            t.pull_requests@,
            a.branch@,
            0,
        ) is None) {
            Some("discarded"@)
        } else {
            None
        },
    }
}

/// The first candidate on a branch.
pub open spec fn first_candidate(prs: Seq<PullRequestState>, branch: Seq<char>, i: int) -> Option<int>
    decreases prs.len() - i,
{
    if i >= prs.len() {
        None
    } else if prs[i].pr.head_ref_name@ == branch {
        Some(i)
    } else {
        first_candidate(prs, branch, i + 1)
    }
}

/// The thesis was released at the time of the attempt or later.
pub open spec fn released_since(t: ThesisState, a: AttemptRecord) -> bool {
    exists|i: int|
        0 <= i < t.releases@.len() && !(#[trigger] t.releases@[i]).created_at.earlier(a.created_at)
}

/// The row of an attempt; nothing where it has not ended.
pub open spec fn row_for(t: ThesisState, a: AttemptRecord) -> Option<RowView> {
    match status_of(t, a) {
        Some(status) => Some(
            RowView {
                thesis: "#"@ + text::decimal(t.issue.number as nat),
                attempt: a.branch@,
                metric: if a.observation == Observation::Crashed || a.observation
                    == Observation::InfraFailure {
                    "\u{2014}"@
                } else {
                    a.metric.text@
                },
                baseline: match a.baseline_metric {
                    Some(b) => b.text@,
                    None => "N/A"@,
                },
                status,
                summary: a.summary@,
            },
        ),
        None => None,
    }
}

/// The rows of the attempts at a thesis.
pub open spec fn thesis_rows(t: ThesisState, attempts: Seq<AttemptRecord>) -> Seq<RowView>
    decreases attempts.len(),
{
    if attempts.len() == 0 {
        Seq::empty()
    } else {
        let rest = thesis_rows(t, attempts.drop_last());
        match row_for(t, attempts.last()) {
            Some(r) => rest.push(r),
            None => rest,
        }
    }
}

/// The rows of the attempts at all theses.
pub open spec fn all_rows(theses: Seq<ThesisState>) -> Seq<RowView>
    decreases theses.len(),
{
    if theses.len() == 0 {
        Seq::empty()
    } else {
        all_rows(theses.drop_last()) + thesis_rows(theses.last(), theses.last().attempts@)
    }
}

/// A branch has a row.
pub open spec fn has_row(rows: Seq<LedgerRow>, branch: Seq<char>) -> bool {
    exists|i: int| 0 <= i < rows.len() && (#[trigger] rows[i]).attempt@ == branch
}

/// The rows whose attempts have none yet.
pub open spec fn missing_from(rows: Seq<LedgerRow>, wanted: Seq<RowView>) -> Seq<RowView>
    decreases wanted.len(),
{
    if wanted.len() == 0 {
        Seq::empty()
    } else {
        let rest = missing_from(rows, wanted.drop_last());
        if has_row(rows, wanted.last().attempt) {
            rest
        } else {
            rest.push(wanted.last())
        }
    }
}

fn attempt_status(t: &ThesisState, a: &AttemptRecord) -> (r: Option<String>)
    ensures
        match r {
            Some(s) => status_of(*t, *a) == Some(s@),
            None => status_of(*t, *a) is None,
        },
{
    let prs = &t.pull_requests;
    let mut found: Option<usize> = None;
    let mut i: usize = 0;
    while i < prs.len() && found.is_none()
        invariant
            i <= prs.len(),
            match found {
                Some(k) => k < prs.len() && first_candidate(prs@, a.branch@, 0) == Some(k as int),
                None => first_candidate(prs@, a.branch@, 0) == first_candidate(
                    prs@,
                    a.branch@,
                    i as int,
                ),
            },
        decreases prs.len() - i,
    {
        if text::same(prs[i].pr.head_ref_name.as_str(), a.branch.as_str()) {
            found = Some(i);
        }
        i = i + 1;
    }
    if let Some(k) = found {
        if let Some(d) = &prs[k].decision {
            return Some(d.outcome.text());
        }
    }
    if a.observation == Observation::Crashed {
        return Some("crashed".to_owned());
    }
    if a.observation == Observation::InfraFailure {
        return Some("infra_failure".to_owned());
    }
    let mut released = false;
    let mut j: usize = 0;
    while j < t.releases.len() && !released
        invariant
            j <= t.releases.len(),
            released == (exists|m: int|
                0 <= m < j && !(#[trigger] t.releases@[m]).created_at.earlier(a.created_at)),
        decreases t.releases.len() - j,
    {
        if !t.releases[j].created_at.before(&a.created_at) {
            assert(!t.releases@[j as int].created_at.earlier(a.created_at));
            released = true;
        }
        j = j + 1;
    }
    proof {
        if released {
            let m = choose|m: int|
                0 <= m < j && !(#[trigger] t.releases@[m]).created_at.earlier(a.created_at);
            assert(!t.releases@[m].created_at.earlier(a.created_at));
        }
        assert(released == released_since(*t, *a));
    }
    if released || (text::same(t.issue.state.as_str(), "CLOSED") && found.is_none()) {
        return Some("discarded".to_owned());
    }
    None
}

/// The rows of the attempts at a thesis.
pub fn rows_for_thesis(thesis: &ThesisState) -> (r: Vec<LedgerRow>)
    ensures
        row_views(r@) == thesis_rows(*thesis, thesis.attempts@),
{
    let mut rows: Vec<LedgerRow> = Vec::new();
    let mut i: usize = 0;
    assert(thesis.attempts@.take(0).len() == 0);
    assert(row_views(rows@) =~= Seq::<RowView>::empty());
    while i < thesis.attempts.len()
        invariant
            i <= thesis.attempts.len(),
            row_views(rows@) == thesis_rows(*thesis, thesis.attempts@.take(i as int)),
        decreases thesis.attempts.len() - i,
    {
        let ghost before = rows@;
        let a = &thesis.attempts[i];
        assert(thesis.attempts@.take(i + 1).drop_last() =~= thesis.attempts@.take(i as int));
        match attempt_status(thesis, a) {
            Some(status) => {
                let mut number = "#".to_owned();
                number.append(text::number(thesis.issue.number).as_str());
                let metric = if a.observation == Observation::Crashed || a.observation
                    == Observation::InfraFailure {
                    "\u{2014}".to_owned()
                } else {
                    a.metric.text.clone()
                };
                let baseline = match &a.baseline_metric {
                    Some(b) => b.text.clone(),
                    None => "N/A".to_owned(),
                };
                rows.push(
                    LedgerRow {
                        thesis: number,
                        attempt: a.branch.clone(),
                        metric,
                        baseline,
                        status,
                        summary: a.summary.clone(),
                    },
                );
                assert(row_views(rows@) =~= row_views(before).push(rows@.last()@));
            },
            None => {},
        }
        i = i + 1;
    }
    assert(thesis.attempts@.take(i as int) =~= thesis.attempts@);
    rows
}

impl Ledger {
    /// The ledger in a directory: the rows of its file, none where there is no file.
    pub fn load(repo_root: &str, contents: Option<&str>) -> (r: Self)
        ensures
            r.path@ == paths::joined(repo_root@, "results.tsv"@),
            row_views(r.rows@) == (match contents {
                Some(c) => ledger_rows(c@),
                None => Seq::empty(),
            }),
    {
        let path = paths::join(repo_root, "results.tsv");
        let mut rows: Vec<LedgerRow> = Vec::new();
        assert(row_views(rows@) =~= Seq::<RowView>::empty());
        match contents {
            Some(c) => {
                let lines: Vec<String> = text::lines(c);
                let ghost all = text::texts(lines@);
                if lines.len() > 0 {
                    let ghost body = all.drop_first();
                    let mut i: usize = 1;
                    assert(body.take(0).len() == 0);
                    while i < lines.len()
                        invariant
                            1 <= i <= lines.len(),
                            all == text::texts(lines@),
                            body == all.drop_first(),
                            row_views(rows@) == rows_of(body.take(i - 1)),
                        decreases lines.len() - i,
                    {
                        let ghost before = rows@;
                        proof {
                            assert(body.take(i as int).drop_last() =~= body.take(i - 1));
                            assert(body.take(i as int).last() == lines@[i as int]@);
                        }
                        match parse_row(lines[i].as_str()) {
                            Some(row) => {
                                rows.push(row);
                                assert(row_views(rows@) =~= row_views(before).push(
                                    rows@.last()@,
                                ));
                            },
                            None => {},
                        }
                        i = i + 1;
                    }
                    assert(body.take(i - 1) =~= body);
                }
            },
            None => {},
        }
        Ledger { path, rows }
    }

    /// Whether an attempt has a row.
    pub fn contains_attempt(&self, branch: &str) -> (r: bool)
        ensures
            r == has_row(self.rows@, branch@),
    {
        let mut i: usize = 0;
        while i < self.rows.len()
            invariant
                i <= self.rows.len(),
                forall|j: int| 0 <= j < i ==> (#[trigger] self.rows@[j]).attempt@ != branch@,
            decreases self.rows.len() - i,
        {
            if text::same(self.rows[i].attempt.as_str(), branch) {
                assert(self.rows@[i as int].attempt@ == branch@);
                return true;
            }
            i = i + 1;
        }
        false
    }

    /// The rows of attempts that have ended and have none yet.
    pub fn missing_rows(&self, repo_state: &RepositoryState) -> (r: Vec<LedgerRow>)
        ensures
            row_views(r@) == missing_from(self.rows@, all_rows(repo_state.theses@)),
    {
        let mut wanted: Vec<LedgerRow> = Vec::new();
        let mut i: usize = 0;
        assert(repo_state.theses@.take(0).len() == 0);
        assert(row_views(wanted@) =~= Seq::<RowView>::empty());
        while i < repo_state.theses.len()
            invariant
                i <= repo_state.theses.len(),
                row_views(wanted@) == all_rows(repo_state.theses@.take(i as int)),
            decreases repo_state.theses.len() - i,
        {
            let ghost before = wanted@;
            let mut more: Vec<LedgerRow> = rows_for_thesis(&repo_state.theses[i]);
            let ghost added = more@;
            wanted.append(&mut more);
            proof {
                assert(repo_state.theses@.take(i + 1).drop_last() =~= repo_state.theses@.take(
                    i as int,
                ));
                assert(row_views(wanted@) =~= row_views(before) + row_views(added));
            }
            i = i + 1;
        }
        assert(repo_state.theses@.take(i as int) =~= repo_state.theses@);
        let ghost all = row_views(wanted@);
        let mut r: Vec<LedgerRow> = Vec::new();
        let mut k: usize = 0;
        assert(all.take(0).len() == 0);
        assert(row_views(r@) =~= Seq::<RowView>::empty());
        while k < wanted.len()
            invariant
                k <= wanted.len(),
                all == row_views(wanted@),
                row_views(r@) == missing_from(self.rows@, all.take(k as int)),
            decreases wanted.len() - k,
        {
            let ghost before = r@;
            proof {
                assert(all.take(k + 1).drop_last() =~= all.take(k as int));
                assert(all.take(k + 1).last() == wanted@[k as int]@);
            }
            if !self.contains_attempt(wanted[k].attempt.as_str()) {
                r.push(wanted[k].clone());
                assert(row_views(r@) =~= row_views(before).push(r@.last()@));
            }
            k = k + 1;
        }
        assert(all.take(k as int) =~= all);
        r
    }

    /// No row is missing.
    pub open spec fn current(&self, repo_state: RepositoryState) -> bool {
        missing_from(self.rows@, all_rows(repo_state.theses@)).len() == 0
    }

    /// Whether no row is missing.
    pub fn is_current(&self, repo_state: &RepositoryState) -> (r: bool)
        ensures
            r == self.current(*repo_state),
    {
        let missing: Vec<LedgerRow> = self.missing_rows(repo_state);
        assert(row_views(missing@).len() == missing@.len());
        missing.len() == 0
    }

    /// Adds rows, and gives the text that the file is to hold; none where nothing was added.
    pub fn append_rows(&mut self, new_rows: &Vec<LedgerRow>) -> (r: Option<String>)
        ensures
            final(self).path == old(self).path,
            final(self).rows@ == old(self).rows@ + new_rows@,
            match r {
                Some(t) => new_rows@.len() > 0 && t@ == rows_text(row_views(final(self).rows@)),
                None => new_rows@.len() == 0,
            },
    {
        if new_rows.len() == 0 {
            assert(self.rows@ =~= old(self).rows@ + new_rows@);
            return None;
        }
        let mut more: Vec<LedgerRow> = new_rows.clone();
        assert(more@ =~= new_rows@);
        self.rows.append(&mut more);
        let mut t = "thesis\tattempt\tmetric\tbaseline\tstatus\tsummary\n".to_owned();
        let ghost all = row_views(self.rows@);
        let mut i: usize = 0;
        assert(all.take(0).len() == 0);
        while i < self.rows.len()
            invariant
                i <= self.rows.len(),
                all == row_views(self.rows@),
                t@ == rows_text(all.take(i as int)),
            decreases self.rows.len() - i,
        {
            let row = &self.rows[i];
            let mut line = row.thesis.clone();
            line.append("\t");
            line.append(row.attempt.as_str());
            line.append("\t");
            line.append(row.metric.as_str());
            line.append("\t");
            line.append(row.baseline.as_str());
            line.append("\t");
            line.append(row.status.as_str());
            line.append("\t");
            line.append(row.summary.as_str());
            line.append("\n");
            proof {
                assert(all.take(i + 1).drop_last() =~= all.take(i as int));
                assert(all.take(i + 1).last() == self.rows@[i as int]@);
            }
            t.append(line.as_str());
            i = i + 1;
        }
        assert(all.take(i as int) =~= all);
        Some(t)
    }

    /// The metrics of accepted rows, as they were read, without those of branches that do not
    /// count.
    pub open spec fn counted(
        rows: Seq<LedgerRow>,
        readings: Seq<Option<Metric>>,
        without: Seq<Seq<char>>,
    ) -> Seq<Metric>
        decreases rows.len(),
    {
        if rows.len() == 0 {
            Seq::empty()
        } else {
            let rest = Self::counted(rows.drop_last(), readings.drop_last(), without);
            if rows.last().status@ == "accepted"@ && !without.contains(rows.last().attempt@) {
                match readings.last() {
                    Some(m) => rest.push(m),
                    None => rest,
                }
            } else {
                rest
            }
        }
    }

    /// The best metric of the accepted rows. The readings are those of the rows' metrics.
    pub fn best_accepted_metric(&self, readings: &Vec<Option<Metric>>, direction: MetricDirection) -> (r:
        Option<Metric>)
        requires
            readings.len() == self.rows.len(),
        ensures
            r == state::best(
                Self::counted(self.rows@, readings@, Seq::empty()),
                direction,
            ),
    {
        let none: Vec<String> = Vec::new();
        assert(text::texts(none@) =~= Seq::<Seq<char>>::empty());
        self.best_accepted_metric_excluding(readings, direction, &none)
    }

    /// The best metric of the accepted rows, without those of invalidated branches.
    pub fn best_accepted_metric_excluding(
        &self,
        readings: &Vec<Option<Metric>>,
        direction: MetricDirection,
        invalidated: &Vec<String>,
    ) -> (r: Option<Metric>)
        requires
            readings.len() == self.rows.len(),
        ensures
            r == state::best(
                Self::counted(self.rows@, readings@, text::texts(invalidated@)),
                direction,
            ),
    {
        let ghost without = text::texts(invalidated@);
        let mut current: Option<Metric> = None;
        let mut i: usize = 0;
        assert(self.rows@.take(0).len() == 0);
        while i < self.rows.len()
            invariant
                i <= self.rows.len(),
                readings.len() == self.rows.len(),
                without == text::texts(invalidated@),
                current == state::best(
                    Self::counted(
                        self.rows@.take(i as int),
                        readings@.take(i as int),
                        without,
                    ),
                    direction,
                ),
            decreases self.rows.len() - i,
        {
            proof {
                assert(self.rows@.take(i + 1).drop_last() =~= self.rows@.take(i as int));
                assert(readings@.take(i + 1).drop_last() =~= readings@.take(i as int));
            }
            if text::same(self.rows[i].status.as_str(), "accepted") && !text::is_listed(
                invalidated,
                self.rows[i].attempt.as_str(),
            ) {
                if let Some(m) = &readings[i] {
                    proof {
                        let rest = Self::counted(
                            self.rows@.take(i as int),
                            readings@.take(i as int),
                            without,
                        );
                        assert(rest.push(*m).drop_last() =~= rest);
                    }
                    current = Some(state::select_metric(current, m.clone(), direction));
                }
            }
            i = i + 1;
        }
        assert(self.rows@.take(i as int) =~= self.rows@);
        assert(readings@.take(i as int) =~= readings@);
        current
    }
}

proof fn lemma_missing(rows: Seq<LedgerRow>, wanted: Seq<RowView>)
    ensures
        forall|i: int|
            0 <= i < wanted.len() && !has_row(rows, (#[trigger] wanted[i]).attempt)
                ==> missing_from(rows, wanted).contains(wanted[i]),
    decreases wanted.len(),
{
    if wanted.len() > 0 {
        let rest = wanted.drop_last();
        lemma_missing(rows, rest);
        let q = missing_from(rows, rest);
        let r = missing_from(rows, wanted);
        assert forall|i: int|
            0 <= i < wanted.len() && !has_row(rows, (#[trigger] wanted[i]).attempt) implies r.contains(
            wanted[i],
        ) by {
            if i < rest.len() {
                assert(rest[i] == wanted[i]);
                assert(q.contains(rest[i]));
                let k = choose|k: int| 0 <= k < q.len() && q[k] == rest[i];
                assert(r[k] == wanted[i]);
            } else {
                assert(r[q.len() as int] == wanted[i]);
            }
        }
    }
}

proof fn lemma_nothing_missing(rows: Seq<LedgerRow>, wanted: Seq<RowView>)
    requires
        forall|i: int| 0 <= i < wanted.len() ==> has_row(rows, (#[trigger] wanted[i]).attempt),
    ensures
        missing_from(rows, wanted).len() == 0,
    decreases wanted.len(),
{
    if wanted.len() > 0 {
        let rest = wanted.drop_last();
        assert forall|i: int| 0 <= i < rest.len() implies has_row(
            rows,
            (#[trigger] rest[i]).attempt,
        ) by {
            assert(rest[i] == wanted[i]);
        }
        lemma_nothing_missing(rows, rest);
        assert(has_row(rows, wanted[wanted.len() - 1].attempt));
    }
}

/// A ledger to which its missing rows were added is current.
pub proof fn adding_missing_rows_makes_current(
    before: Ledger,
    added: Seq<LedgerRow>,
    after: Ledger,
    repo_state: RepositoryState,
)
    requires
        row_views(added) == missing_from(before.rows@, all_rows(repo_state.theses@)),
        after.rows@ == before.rows@ + added,
    ensures
        after.current(repo_state),
{
    let wanted = all_rows(repo_state.theses@);
    let rows = before.rows@;
    lemma_missing(rows, wanted);
    assert forall|i: int| 0 <= i < wanted.len() implies has_row(
        after.rows@,
        (#[trigger] wanted[i]).attempt,
    ) by {
        if has_row(rows, wanted[i].attempt) {
            let k = choose|k: int|
                0 <= k < rows.len() && (#[trigger] rows[k]).attempt@ == wanted[i].attempt;
            assert(after.rows@[k].attempt@ == wanted[i].attempt);
        } else {
            assert(row_views(added).contains(wanted[i]));
            let k = choose|k: int| 0 <= k < row_views(added).len() && row_views(added)[k] == wanted[i];
            assert(added[k]@ == wanted[i]);
            assert(after.rows@[rows.len() + k].attempt@ == wanted[i].attempt);
        }
    }
    lemma_nothing_missing(after.rows@, wanted);
}

/// A field that stands between tabs on a line.
pub open spec fn fits_field(s: Seq<char>) -> bool {
    forall|i: int| 0 <= i < s.len() ==> #[trigger] s[i] != '\t' && s[i] != '\n'
}

impl RowView {
    /// The line of the row without its line break.
    pub open spec fn bare_line(self) -> Seq<char> {
        self.thesis + "\t"@ + self.attempt + "\t"@ + self.metric + "\t"@ + self.baseline + "\t"@
            + self.status + "\t"@ + self.summary
    }

    /// The row can be read back: its fields fit between tabs, its line is not blank, and it does
    /// not end with a carriage return.
    pub open spec fn readable(self) -> bool {
        &&& fits_field(self.thesis)
        &&& fits_field(self.attempt)
        &&& fits_field(self.metric)
        &&& fits_field(self.baseline)
        &&& fits_field(self.status)
        &&& fits_field(self.summary)
        &&& text::trimmed(self.bare_line()).len() > 0
        &&& self.summary.len() > 0 ==> self.summary.last() != '\r'
    }
}

proof fn lemma_first_piece(a: Seq<char>, rest: Seq<char>)
    requires
        fits_field(a),
    ensures
        text::pieces(a + "\t"@ + rest, "\t"@) == seq![a] + text::pieces(rest, "\t"@),
{
    reveal_strlit("\t");
    let tab = "\t"@;
    let s = a + tab + rest;
    let n = a.len() as int;
    assert(s.subrange(n, n + 1) =~= tab);
    assert forall|j: int| 0 <= j < n implies !text::occurs_at(s, tab, j) by {
        assert(s.subrange(j, j + 1)[0] == a[j]);
    }
    text::lemma_found_at(s, tab, 0, n);
    assert(s.take(n) =~= a);
    assert(s.skip(n + 1) =~= rest);
}

proof fn lemma_last_piece(a: Seq<char>)
    requires
        fits_field(a),
    ensures
        text::pieces(a, "\t"@) == seq![a],
{
    reveal_strlit("\t");
    assert forall|j: int| 0 <= j implies !text::occurs_at(a, "\t"@, j) by {
        if text::occurs_at(a, "\t"@, j) {
            assert(a.subrange(j, j + 1)[0] == a[j]);
        }
    }
    text::lemma_not_found(a, "\t"@, 0);
}

proof fn lemma_row_read_back(row: RowView)
    requires
        row.readable(),
    ensures
        row_of(row.bare_line()) == Some(row),
        text::lines_of(row.line()) == seq![row.bare_line()],
        row.line().last() == '\n',
{
    reveal_strlit("\t");
    reveal_strlit("\n");
    let tab = "\t"@;
    let r5 = row.summary;
    let r4 = row.status + tab + r5;
    let r3 = row.baseline + tab + r4;
    let r2 = row.metric + tab + r3;
    let r1 = row.attempt + tab + r2;
    let line = row.bare_line();
    assert(line =~= row.thesis + tab + r1);
    lemma_last_piece(r5);
    lemma_first_piece(row.status, r5);
    lemma_first_piece(row.baseline, r4);
    lemma_first_piece(row.metric, r3);
    lemma_first_piece(row.attempt, r2);
    lemma_first_piece(row.thesis, r1);
    let parts = text::pieces(line, tab);
    assert(parts =~= seq![
        row.thesis,
        row.attempt,
        row.metric,
        row.baseline,
        row.status,
        row.summary,
    ]);
    assert(row.line() =~= line.push('\n'));
    assert forall|i: int| 0 <= i < line.len() implies line[i] != '\n' by {
        lemma_unbroken_line(row, i);
    }
    text::lemma_one_line(line);
    if r5.len() > 0 {
        assert(line.last() == r5.last());
    } else {
        assert(line.last() == '\t');
    }
}

proof fn lemma_unbroken_line(row: RowView, i: int)
    requires
        row.readable(),
        0 <= i < row.bare_line().len(),
    ensures
        row.bare_line()[i] != '\n',
{
    reveal_strlit("\t");
    let n0 = row.thesis.len() as int;
    let n1 = n0 + 1 + row.attempt.len();
    let n2 = n1 + 1 + row.metric.len();
    let n3 = n2 + 1 + row.baseline.len();
    let n4 = n3 + 1 + row.status.len();
    let line = row.bare_line();
    if i < n0 {
        assert(line[i] == row.thesis[i]);
    } else if i == n0 {
        assert(line[i] == '\t');
    } else if i < n1 {
        assert(line[i] == row.attempt[i - n0 - 1]);
    } else if i == n1 {
        assert(line[i] == '\t');
    } else if i < n2 {
        assert(line[i] == row.metric[i - n1 - 1]);
    } else if i == n2 {
        assert(line[i] == '\t');
    } else if i < n3 {
        assert(line[i] == row.baseline[i - n2 - 1]);
    } else if i == n3 {
        assert(line[i] == '\t');
    } else if i < n4 {
        assert(line[i] == row.status[i - n3 - 1]);
    } else if i == n4 {
        assert(line[i] == '\t');
    } else {
        assert(line[i] == row.summary[i - n4 - 1]);
    }
}

proof fn lemma_rows_text(rows: Seq<RowView>)
    requires
        forall|i: int| 0 <= i < rows.len() ==> (#[trigger] rows[i]).readable(),
    ensures
        rows_text(rows).len() > 0,
        rows_text(rows).last() == '\n',
        text::lines_of(rows_text(rows)).len() == rows.len() + 1,
        rows_of(text::lines_of(rows_text(rows)).drop_first()) == rows,
    decreases rows.len(),
{
    let t = rows_text(rows);
    if rows.len() == 0 {
        reveal_strlit("thesis\tattempt\tmetric\tbaseline\tstatus\tsummary\n");
        let h = heading();
        let line = h.drop_last();
        assert(h =~= line.push('\n'));
        assert(forall|i: int| 0 <= i < line.len() ==> line[i] != '\n');
        text::lemma_one_line(line);
        assert(text::lines_of(t).drop_first().len() == 0);
        assert(rows_of(text::lines_of(t).drop_first()) =~= rows);
    } else {
        let rest = rows.drop_last();
        let row = rows.last();
        assert forall|i: int| 0 <= i < rest.len() implies (#[trigger] rest[i]).readable() by {
            assert(rest[i] == rows[i]);
        }
        lemma_rows_text(rest);
        assert(rows[rows.len() - 1] == row);
        lemma_row_read_back(row);
        let a = rows_text(rest);
        text::lemma_lines_apart(a, row.line());
        let la = text::lines_of(a);
        let lines = text::lines_of(t);
        assert(lines =~= la.push(row.bare_line()));
        let body = lines.drop_first();
        assert(body.drop_last() =~= la.drop_first());
        assert(body.last() == row.bare_line());
        assert(rest.push(row) =~= rows);
    }
}

/// A ledger that was written reads back: the rows are those that were there.
pub proof fn written_ledger_reads_back(rows: Seq<RowView>)
    requires
        forall|i: int| 0 <= i < rows.len() ==> (#[trigger] rows[i]).readable(),
    ensures
        ledger_rows(rows_text(rows)) == rows,
{
    lemma_rows_text(rows);
}

} // verus!
