//! What holds of the comments in which the nodes talk to each other.
use crate::block;
use crate::comments;
use crate::comments::{
    AttemptAnnotation, Observation, Outcome, ProtocolComment, Readings, ReleaseReason,
};
use crate::text;
use crate::worker;
use vstd::prelude::*;

verus! {

/// The text is what stands ahead of a line with a key and a value, that line and what follows it.
pub open spec fn line_between(
    s: Seq<char>,
    a: Seq<char>,
    key: Seq<char>,
    value: Seq<char>,
    b: Seq<char>,
) -> bool {
    s == a + "\n"@ + key + ": "@ + value + "\n"@ + b
}

/// A line of the text gives the value for the key.
pub open spec fn tells(s: Seq<char>, key: Seq<char>, value: Seq<char>) -> bool {
    exists|a: Seq<char>, b: Seq<char>| line_between(s, a, key, value, b)
}

/// The text is what stands ahead of a block of the kind, its first line, its lines and its end.
pub open spec fn block_behind(
    s: Seq<char>,
    a: Seq<char>,
    kind: Seq<char>,
    lines: Seq<char>,
) -> bool {
    s == a + "\n\n<!-- polyresearch:"@ + kind + "\n"@ + lines + "-->"@
}

/// The text ends in a block of the kind.
pub open spec fn is_of_kind(s: Seq<char>, kind: Seq<char>) -> bool {
    exists|a: Seq<char>, lines: Seq<char>| block_behind(s, a, kind, lines)
}

proof fn lemma_line(f: Seq<(Seq<char>, Seq<char>)>, i: int) -> (r: (Seq<char>, Seq<char>))
    requires
        0 <= i < f.len(),
    ensures
        line_between("\n"@ + block::fields_text(f), r.0, f[i].0, f[i].1, r.1),
    decreases f.len(),
{
    let rest = f.drop_last();
    let t = block::fields_text(f);
    let br = "\n"@;
    if i < rest.len() {
        let (a, b) = lemma_line(rest, i);
        assert(rest[i] == f[i]);
        let c = b + f.last().0 + ": "@ + f.last().1 + br;
        assert(br + t =~= br + block::fields_text(rest) + f.last().0 + ": "@ + f.last().1 + br);
        assert(br + t =~= a + br + f[i].0 + ": "@ + f[i].1 + br + c);
        (a, c)
    } else {
        reveal_strlit("\n");
        let before = br + block::fields_text(rest);
        lemma_break(rest);
        let a = before.drop_last();
        assert(before =~= a + br);
        assert(br + t =~= before + f[i].0 + ": "@ + f[i].1 + br);
        assert(br + t =~= a + br + f[i].0 + ": "@ + f[i].1 + br + Seq::<char>::empty());
        (a, Seq::empty())
    }
}

proof fn lemma_break(f: Seq<(Seq<char>, Seq<char>)>)
    ensures
        ("\n"@ + block::fields_text(f)).last() == '\n',
{
    reveal_strlit("\n");
    if f.len() > 0 {
        assert(block::fields_text(f).last() == '\n');
    } else {
        assert("\n"@ + block::fields_text(f) =~= "\n"@);
    }
}

proof fn lemma_told(c: ProtocolComment, r: Seq<char>, i: int)
    requires
        !(c is SlashApprove) && !(c is SlashReject),
        r == c@.rendered(),
        0 <= i < c@.fields().len(),
    ensures
        tells(r, c@.fields()[i].0, c@.fields()[i].1),
{
    let f = c@.fields();
    let (a, b) = lemma_line(f, i);
    let ahead = block::head_text(c@.summary_line(), c@.shown_body()) + "<!-- polyresearch:"@
        + c@.kind();
    let t = "\n"@ + block::fields_text(f);
    assert(r =~= ahead + t + "-->"@);
    assert(line_between(r, ahead + a, f[i].0, f[i].1, b + "-->"@)) by {
        assert(r =~= (ahead + a) + "\n"@ + f[i].0 + ": "@ + f[i].1 + "\n"@ + (b + "-->"@));
    }
}

proof fn lemma_kind(c: ProtocolComment, r: Seq<char>)
    requires
        !(c is SlashApprove) && !(c is SlashReject),
        r == c@.rendered(),
    ensures
        is_of_kind(r, c@.kind()),
{
    reveal_strlit("\n\n");
    reveal_strlit("<!-- polyresearch:");
    reveal_strlit("\n\n<!-- polyresearch:");
    assert("\n\n"@ + "<!-- polyresearch:"@ =~= "\n\n<!-- polyresearch:"@);
    let head = block::head_text(c@.summary_line(), c@.shown_body());
    let a = match c@.shown_body() {
        Some(b) => c@.summary_line() + "\n\n"@ + b,
        None => c@.summary_line(),
    };
    assert(head =~= a + "\n\n"@);
    let lines = block::fields_text(c@.fields());
    assert(r =~= a + ("\n\n"@ + "<!-- polyresearch:"@) + c@.kind() + "\n"@ + lines + "-->"@);
    assert(block_behind(r, a, c@.kind(), lines));
}

/// A claim, on a thesis or on a review, tells the thesis and who claims it; what gives a claim up
/// tells the reason too.
pub proof fn what_claims_tell(thesis: u64, node: String, reason: ReleaseReason, c: ProtocolComment, r: String)
    requires
        call_ensures(ProtocolComment::render, (&c,), r),
        c == (ProtocolComment::Claim { thesis, node }) || c == (ProtocolComment::ReviewClaim {
            thesis,
            node,
        }) || c == (ProtocolComment::Release { thesis, node, reason }),
    ensures
        tells(r@, "thesis"@, text::decimal(thesis as nat)),
        tells(r@, "node"@, node@),
        c is Claim ==> is_of_kind(r@, "claim"@),
        c is ReviewClaim ==> is_of_kind(r@, "review-claim"@),
        c is Release ==> is_of_kind(r@, "release"@),
        c is Release ==> tells(
            r@,
            "reason"@,
            match reason {
                ReleaseReason::NoImprovement => "no_improvement"@,
                ReleaseReason::Timeout => "timeout"@,
                ReleaseReason::InfraFailure => "infra_failure"@,
            },
        ),
{
    lemma_kind(c, r@);
    lemma_told(c, r@, 0);
    lemma_told(c, r@, 1);
    if c is Release {
        lemma_told(c, r@, 2);
    }
}

/// An approval tells the thesis; a policy pass tells the thesis and the commit.
pub proof fn what_passes_tell(thesis: u64, sha: String, c: ProtocolComment, r: String)
    requires
        call_ensures(ProtocolComment::render, (&c,), r),
        c == (ProtocolComment::Approval { thesis }) || c == (ProtocolComment::PolicyPass {
            thesis,
            candidate_sha: sha,
        }),
    ensures
        tells(r@, "thesis"@, text::decimal(thesis as nat)),
        c is Approval ==> is_of_kind(r@, "approval"@),
        c is PolicyPass ==> is_of_kind(r@, "policy-pass"@) && tells(r@, "candidate_sha"@, sha@),
{
    lemma_kind(c, r@);
    lemma_told(c, r@, 0);
    if c is PolicyPass {
        lemma_told(c, r@, 1);
    }
}

/// An attempt tells its thesis, its branch, its metric, its baseline where it has one, what was
/// observed and the summary.
pub proof fn what_an_attempt_tells(c: ProtocolComment, r: String, seen: String)
    requires
        call_ensures(ProtocolComment::render, (&c,), r),
        c is Attempt,
        call_ensures(Observation::text, (&c->Attempt_observation,), seen),
    ensures
        is_of_kind(r@, "attempt"@),
        tells(r@, "thesis"@, text::decimal(c->Attempt_thesis as nat)),
        tells(r@, "branch"@, c->branch@),
        tells(r@, "metric"@, c->Attempt_metric.text@),
        c->Attempt_baseline_metric matches Some(b) ==> tells(r@, "baseline_metric"@, b.text@),
        tells(r@, "observation"@, seen@),
        tells(r@, "summary"@, c->summary@),
{
    lemma_kind(c, r@);
    lemma_told(c, r@, 0);
    lemma_told(c, r@, 1);
    lemma_told(c, r@, 2);
    lemma_told(c, r@, 3);
    lemma_told(c, r@, 4);
    if c->Attempt_baseline_metric is Some {
        lemma_told(c, r@, 5);
    }
}

/// A review tells its thesis, the commits, who made it, both metrics, what was observed and the
/// environment.
pub proof fn what_a_review_tells(c: ProtocolComment, r: String, seen: String)
    requires
        call_ensures(ProtocolComment::render, (&c,), r),
        c is Review,
        call_ensures(Observation::text, (&c->Review_observation,), seen),
    ensures
        is_of_kind(r@, "review"@),
        tells(r@, "thesis"@, text::decimal(c->Review_thesis as nat)),
        tells(r@, "candidate_sha"@, c->Review_candidate_sha@),
        tells(r@, "base_sha"@, c->base_sha@),
        tells(r@, "node"@, c->Review_node@),
        tells(r@, "metric"@, c->Review_metric.text@),
        tells(r@, "baseline_metric"@, c->Review_baseline_metric.text@),
        tells(r@, "observation"@, seen@),
        c->env_sha matches Some(e) ==> tells(r@, "env_sha"@, e@),
        c->env_sha is None ==> tells(r@, "env_sha"@, "none"@),
{
    lemma_kind(c, r@);
    lemma_told(c, r@, 0);
    lemma_told(c, r@, 1);
    lemma_told(c, r@, 2);
    lemma_told(c, r@, 3);
    lemma_told(c, r@, 4);
    lemma_told(c, r@, 5);
    lemma_told(c, r@, 6);
    lemma_told(c, r@, 7);
}

/// A decision tells its thesis, the commit, the outcome and how many reviews confirm it.
pub proof fn what_a_decision_tells(c: ProtocolComment, r: String, outcome: String)
    requires
        call_ensures(ProtocolComment::render, (&c,), r),
        c is Decision,
        call_ensures(Outcome::text, (&c->outcome,), outcome),
    ensures
        is_of_kind(r@, "decision"@),
        tells(r@, "thesis"@, text::decimal(c->Decision_thesis as nat)),
        tells(r@, "candidate_sha"@, c->Decision_candidate_sha@),
        tells(r@, "outcome"@, outcome@),
        tells(r@, "confirmations"@, text::decimal(c->confirmations as nat)),
{
    lemma_kind(c, r@);
    lemma_told(c, r@, 0);
    lemma_told(c, r@, 1);
    lemma_told(c, r@, 2);
    lemma_told(c, r@, 3);
}

/// A note of the maintainer's tells what was done, to what, why, and on account of which comment.
pub proof fn what_a_note_tells(c: ProtocolComment, r: String)
    requires
        call_ensures(ProtocolComment::render, (&c,), r),
        c is AdminNote,
    ensures
        is_of_kind(r@, "admin-note"@),
        tells(r@, "action"@, c->action@),
        tells(r@, "target"@, c->target@),
        tells(r@, "note"@, c->note@),
        c->related_comment_id matches Some(n) ==> tells(
            r@,
            "related_comment_id"@,
            text::decimal(n as nat),
        ),
{
    lemma_kind(c, r@);
    lemma_told(c, r@, 0);
    lemma_told(c, r@, 1);
    lemma_told(c, r@, 2);
    if c->related_comment_id is Some {
        lemma_told(c, r@, 3);
    }
}

/// A word of the maintainer's is the command, with the reason behind it where there is one.
pub proof fn what_the_maintainer_writes(reason: Option<String>, yes: ProtocolComment, no: ProtocolComment, r: String, s: String)
    requires
        yes == (ProtocolComment::SlashApprove { reason }),
        no == (ProtocolComment::SlashReject { reason }),
        call_ensures(ProtocolComment::render, (&yes,), r),
        call_ensures(ProtocolComment::render, (&no,), s),
    ensures
        reason is None ==> r@ == "/approve"@ && s@ == "/reject"@,
        reason matches Some(t) ==> r@ == "/approve "@ + t@ && s@ == "/reject "@ + t@,
{
    if let Some(t) = reason {
        reveal_strlit("/approve");
        reveal_strlit("/reject");
        reveal_strlit("/approve ");
        reveal_strlit("/reject ");
        reveal_strlit(" ");
        assert("/approve"@ + " "@ =~= "/approve "@);
        assert("/reject"@ + " "@ =~= "/reject "@);
    }
}

/// A word is read as what it is written for, and anything else as nothing.
pub proof fn words_are_read_as_they_are_written(
    s: &str,
    o: Observation,
    ow: String,
    ro: Option<Observation>,
    po: Result<Observation, String>,
    x: ReleaseReason,
    xw: String,
    rx: Option<ReleaseReason>,
    d: Outcome,
    dw: String,
    rd: Option<Outcome>,
)
    requires
        call_ensures(Observation::text, (&o,), ow),
        call_ensures(Observation::from_text, (s,), ro),
        call_ensures(worker::parse_observation, (s,), po),
        call_ensures(ReleaseReason::text, (&x,), xw),
        call_ensures(ReleaseReason::from_text, (s,), rx),
        call_ensures(Outcome::text, (&d,), dw),
        call_ensures(Outcome::from_text, (s,), rd),
    ensures
        ro == Some(o) <==> s@ == ow@,
        po == Ok::<Observation, String>(o) <==> s@ == ow@,
        rx == Some(x) <==> s@ == xw@,
        rd == Some(d) <==> s@ == dw@,
{
    comments::words_read_back(o, x, d);
}

/// The remark says something: neither its category nor its text is blank.
pub open spec fn says_something(a: AttemptAnnotation) -> bool {
    text::trimmed(a.category@).len() > 0 && text::trimmed(a.text@).len() > 0
}

/// Remarks are taken exactly where there are some and each says something, and then as they are.
pub proof fn which_remarks_are_taken(
    a: Vec<AttemptAnnotation>,
    r: Result<Vec<AttemptAnnotation>, String>,
)
    requires
        call_ensures(
            comments::parse_attempt_annotations,
            (Ok::<Vec<AttemptAnnotation>, String>(a),),
            r,
        ),
    ensures
        r is Ok <==> a@.len() > 0 && forall|i: int|
            0 <= i < a@.len() ==> says_something(#[trigger] a@[i]),
        r is Ok ==> r->Ok_0 == a,
{
    let v = comments::annotation_views(a@);
    comments::annotations_refused_iff_invalid(v);
    assert(v.len() == a@.len());
    assert forall|i: int| 0 <= i < a@.len() implies (says_something(#[trigger] a@[i])
        <==> comments::annotation_says(v[i])) by {
        assert(v[i] == a@[i]@);
    }
    if a@.len() > 0 && forall|i: int| 0 <= i < a@.len() ==> says_something(#[trigger] a@[i]) {
        assert forall|i: int| 0 <= i < v.len() implies comments::annotation_says(
            #[trigger] v[i],
        ) by {
            assert(says_something(a@[i]));
        }
    }
    if comments::annotations_hold(v) {
        assert forall|i: int| 0 <= i < a@.len() implies says_something(#[trigger] a@[i]) by {
            assert(comments::annotation_says(v[i]));
        }
    }
}

/// Only an attempt has remarks, and these are its own.
pub proof fn whose_remarks_are_had(c: &ProtocolComment, r: Option<&Vec<AttemptAnnotation>>)
    requires
        call_ensures(ProtocolComment::attempt_annotations, (c,), r),
    ensures
        r is Some <==> (c is Attempt && c->annotations is Some),
        r matches Some(a) ==> c->annotations == Some(*a),
{
}

/// A word of the maintainer's is heard where a comment starts with the command alone, or with the
/// command and a blank; what follows is the reason.
pub proof fn how_the_maintainer_is_heard(
    body: &str,
    rest: Seq<char>,
    readings: Readings,
    r: Result<Option<ProtocolComment>, String>,
)
    requires
        call_ensures(ProtocolComment::parse, (body, readings), r),
    ensures
        r is Ok,
        (text::trimmed(body@) == "/approve"@ + rest && (rest.len() == 0 || text::is_space(rest[0])))
            ==> r->Ok_0 is Some && (r->Ok_0->Some_0 matches ProtocolComment::SlashApprove { reason }
            && comments::option_text(reason) == (if text::trimmed(rest).len() > 0 {
            Some(text::trimmed(rest))
        } else {
            None
        })),
        (text::trimmed(body@) == "/reject"@ + rest && (rest.len() == 0 || text::is_space(rest[0])))
            ==> r->Ok_0 is Some && (r->Ok_0->Some_0 matches ProtocolComment::SlashReject { reason }
            && comments::option_text(reason) == (if text::trimmed(rest).len() > 0 {
            Some(text::trimmed(rest))
        } else {
            None
        })),
        (r->Ok_0 is Some && r->Ok_0->Some_0 is SlashApprove) ==> text::begins(
            text::trimmed(body@),
            "/approve"@,
        ),
        (r->Ok_0 is Some && r->Ok_0->Some_0 is SlashReject) ==> text::begins(
            text::trimmed(body@),
            "/reject"@,
        ),
{
    let t = text::trimmed(body@);
    if t == "/approve"@ + rest {
        assert(t.take("/approve"@.len() as int) =~= "/approve"@);
        assert(t.skip("/approve"@.len() as int) =~= rest);
    }
    if t == "/reject"@ + rest {
        assert(t.take("/reject"@.len() as int) =~= "/reject"@);
        assert(t.skip("/reject"@.len() as int) =~= rest);
        reveal_strlit("/approve");
        reveal_strlit("/reject");
        if text::begins(t, "/approve"@) {
            assert(t.take(8)[1] == t[1]);
            assert(t.take(7)[1] == t[1]);
        }
    }
}

proof fn lemma_no_block(s: Seq<char>, i: int)
    requires
        0 <= i,
        !text::holds(s, "<!--"@),
    ensures
        block::first_block(s, i) is None,
    decreases s.len() - i + 1,
{
    text::lemma_find_from(s, "<!--"@, 0);
    assert(!text::occurs_at(s, "<!--"@, i));
    if i < s.len() {
        lemma_no_block(s, i + 1);
    }
}

/// A comment without a block, which does not start with a command, says nothing to the nodes.
pub proof fn what_is_not_meant_for_the_nodes(
    body: &str,
    mark: &str,
    marked: bool,
    readings: Readings,
    r: Result<Option<ProtocolComment>, String>,
)
    requires
        call_ensures(ProtocolComment::parse, (body, readings), r),
        mark@ == "<!--"@,
        call_ensures(text::contains, (body, mark), marked),
        !marked,
        !text::begins(text::trimmed(body@), "/approve"@),
        !text::begins(text::trimmed(body@), "/reject"@),
    ensures
        r is Ok,
        r->Ok_0 is None,
{
    lemma_no_block(body@, 0);
}

/// A block that is quoted says nothing: one in a line whose first character is the mark of a quote.
pub proof fn a_quoted_block_says_nothing(
    body: &str,
    readings: Readings,
    r: Result<Option<ProtocolComment>, String>,
)
    requires
        call_ensures(ProtocolComment::parse, (body, readings), r),
        !text::begins(text::trimmed(body@), "/approve"@),
        !text::begins(text::trimmed(body@), "/reject"@),
        block::first_block(body@, 0) matches Some(b) && ({
            let line = text::trimmed_start(text::after_last(body@.take(b.start), '\n'));
            line.len() > 0 && line[0] == '>'
        }),
    ensures
        r is Ok,
        r->Ok_0 is None,
{
}

/// What was written as a comment is heard as that comment, with its numbers as they were read.
pub proof fn what_is_written_is_heard(
    c: ProtocolComment,
    written: String,
    body: &str,
    readings: Readings,
    r: Result<Option<ProtocolComment>, String>,
)
    requires
        call_ensures(ProtocolComment::render, (&c,), written),
        body@ == written@,
        c@.legible(),
        c@.answered(readings@),
        call_ensures(ProtocolComment::parse, (body, readings), r),
    ensures
        r is Ok,
        r->Ok_0 is Some,
        r->Ok_0->Some_0@ == c@.with_readings(readings@),
        c matches ProtocolComment::Claim { thesis, node } ==> (r->Ok_0->Some_0 matches
            ProtocolComment::Claim { thesis: t, node: n } && t == thesis && n@ == node@),
        c matches ProtocolComment::Release { thesis, node, reason } ==> (r->Ok_0->Some_0 matches
            ProtocolComment::Release { thesis: t, node: n, reason: x } && t == thesis && n@ == node@
            && x == reason),
        c matches ProtocolComment::Decision { thesis, outcome, .. } ==> (r->Ok_0->Some_0 matches
            ProtocolComment::Decision { thesis: t, outcome: o, .. } && t == thesis && o == outcome),
        c matches ProtocolComment::PolicyPass { thesis, candidate_sha } ==> (r->Ok_0->Some_0 matches
            ProtocolComment::PolicyPass { thesis: t, candidate_sha: x } && t == thesis && x@
            == candidate_sha@),
{
    assert(comments::parsed(written@, readings@) == Some(c@.with_readings(readings@)));
}

} // verus!
