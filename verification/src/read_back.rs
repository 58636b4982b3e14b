//! What is written can be read: a rendered comment parses to the comment that it was.
use crate::block;
use crate::comments;
use crate::comments::{
    AnnotationView, CommentView, Observation, Outcome, ReadingsView, ReleaseReason,
};
use crate::json;
use crate::metric;
use crate::text;
use crate::time;
use vstd::prelude::*;

verus! {

/// A text without a line break.
pub open spec fn unbroken(s: Seq<char>) -> bool {
    forall|i: int| 0 <= i < s.len() ==> #[trigger] s[i] != '\n'
}

/// A value that a field can carry: it fits on a line and does not close the block.
pub open spec fn plain(v: Seq<char>) -> bool {
    block::tidy(v) && !text::holds(v, "-->"@)
}

impl CommentView {
    /// No header of a block starts in what stands before the block.
    pub open spec fn unmistakable(self) -> bool {
        forall|i: int|
            0 <= i < block::head_text(self.summary_line(), self.shown_body()).len()
                ==> #[trigger] block::header_at(self.rendered(), i) is None
    }

    /// The comment can be written so that it reads back: its texts fit on their lines and do not
    /// close the block, and no readable text looks like a block.
    pub open spec fn legible(self) -> bool {
        match self {
            CommentView::SlashApprove { reason } => reason matches Some(r) ==> r.len() > 0
                && text::trimmed(r) == r,
            CommentView::SlashReject { reason } => reason matches Some(r) ==> r.len() > 0
                && text::trimmed(r) == r,
            CommentView::Approval { .. } => true,
            CommentView::Claim { node, .. } => plain(node),
            CommentView::Release { node, .. } => plain(node),
            CommentView::Attempt { branch, metric, baseline_metric, summary, annotations, .. } => {
                &&& plain(branch)
                &&& plain(summary)
                &&& metric::shows_number(metric.text)
                &&& baseline_metric matches Some(b) ==> metric::shows_number(b.text)
                &&& annotations matches Some(a) ==> !text::holds(
                    comments::annotations_json(a),
                    "-->"@,
                ) && self.unmistakable()
            },
            CommentView::Annotation { node, text, .. } => plain(node) && text::trimmed(text)
                == text && self.unmistakable(),
            CommentView::PolicyPass { candidate_sha, .. } => plain(candidate_sha),
            CommentView::ReviewClaim { node, .. } => plain(node),
            CommentView::Review {
                candidate_sha,
                base_sha,
                node,
                metric,
                baseline_metric,
                env_sha,
                timestamp,
                ..
            } => {
                &&& plain(candidate_sha)
                &&& plain(base_sha)
                &&& plain(node)
                &&& metric::shows_number(metric.text)
                &&& metric::shows_number(baseline_metric.text)
                &&& env_sha matches Some(e) ==> plain(e) && e != "none"@
                &&& timestamp.in_plain_years()
            },
            CommentView::Decision { candidate_sha, .. } => plain(candidate_sha),
            CommentView::AdminNote { action, target, note, .. } => plain(action) && plain(target)
                && plain(note),
        }
    }

    /// Each number and each list of remarks in the comment has a reading.
    pub open spec fn answered(self, r: ReadingsView) -> bool {
        match self {
            CommentView::Attempt { baseline_metric, annotations, .. } => {
                &&& r.metric is Some
                &&& baseline_metric is Some ==> r.baseline_metric is Some
                &&& annotations is Some ==> (r.annotations matches Some(a)
                    && comments::annotations_hold(a))
            },
            CommentView::Review { .. } => r.metric is Some && r.baseline_metric is Some,
            _ => true,
        }
    }

    /// The comment with the readings in place of its numbers and remarks.
    pub open spec fn with_readings(self, r: ReadingsView) -> CommentView {
        match self {
            CommentView::Attempt {
                thesis,
                branch,
                baseline_metric,
                observation,
                summary,
                annotations,
                ..
            } => CommentView::Attempt {
                thesis,
                branch,
                metric: r.metric->Some_0,
                baseline_metric: if baseline_metric is Some {
                    r.baseline_metric
                } else {
                    None
                },
                observation,
                summary,
                annotations: if annotations is Some {
                    r.annotations
                } else {
                    None
                },
            },
            CommentView::Review {
                thesis,
                candidate_sha,
                base_sha,
                node,
                observation,
                env_sha,
                timestamp,
                ..
            } => CommentView::Review {
                thesis,
                candidate_sha,
                base_sha,
                node,
                metric: r.metric->Some_0,
                baseline_metric: r.baseline_metric->Some_0,
                observation,
                env_sha,
                timestamp,
            },
            _ => self,
        }
    }

    /// The texts in `s` that hold the numbers and remarks of the comment are those that show them.
    pub open spec fn literals_in(self, s: Seq<char>) -> bool {
        match self {
            CommentView::Attempt { metric, baseline_metric, annotations, .. } => {
                &&& comments::literal(s, "metric"@) == Some(metric.text)
                &&& comments::literal(s, "baseline_metric"@) == (match baseline_metric {
                    Some(b) => Some(b.text),
                    None => None,
                })
                &&& comments::literal(s, "annotations"@) == (match annotations {
                    Some(a) => Some(comments::annotations_json(a)),
                    None => None,
                })
            },
            CommentView::Review { metric, baseline_metric, .. } => {
                &&& comments::literal(s, "metric"@) == Some(metric.text)
                &&& comments::literal(s, "baseline_metric"@) == Some(baseline_metric.text)
            },
            _ => true,
        }
    }

    /// What is known of the written form of the timestamp in a review.
    pub open spec fn stamped(self) -> bool {
        match self {
            CommentView::Review { timestamp, .. } => {
                let written = time::rfc3339_text(timestamp.secs, timestamp.nanos);
                &&& written.len() > 0
                &&& forall|i: int| 0 <= i < written.len() ==> time::is_stamp_char(#[trigger] written[i])
                &&& timestamp.in_plain_years() ==> time::rfc3339_reading(written) == Some(
                    (timestamp.secs, timestamp.nanos),
                )
            },
            _ => true,
        }
    }
}

/// The names of fields are proper names.
proof fn lemma_keys()
    ensures
        block::is_key("thesis"@),
        block::is_key("node"@),
        block::is_key("reason"@),
        block::is_key("branch"@),
        block::is_key("metric"@),
        block::is_key("baseline_metric"@),
        block::is_key("observation"@),
        block::is_key("summary"@),
        block::is_key("annotations"@),
        block::is_key("candidate_sha"@),
        block::is_key("base_sha"@),
        block::is_key("env_sha"@),
        block::is_key("timestamp"@),
        block::is_key("outcome"@),
        block::is_key("confirmations"@),
        block::is_key("action"@),
        block::is_key("target"@),
        block::is_key("note"@),
        block::is_key("related_comment_id"@),
{
    reveal_strlit("thesis");
    reveal_strlit("node");
    reveal_strlit("reason");
    reveal_strlit("branch");
    reveal_strlit("metric");
    reveal_strlit("baseline_metric");
    reveal_strlit("observation");
    reveal_strlit("summary");
    reveal_strlit("annotations");
    reveal_strlit("candidate_sha");
    reveal_strlit("base_sha");
    reveal_strlit("env_sha");
    reveal_strlit("timestamp");
    reveal_strlit("outcome");
    reveal_strlit("confirmations");
    reveal_strlit("action");
    reveal_strlit("target");
    reveal_strlit("note");
    reveal_strlit("related_comment_id");
}

/// Where no value closes the block, the lines of the fields do not.
proof fn lemma_payload_open(fields: comments::Fields)
    requires
        block::proper(fields),
        forall|i: int| 0 <= i < fields.len() ==> !text::holds((#[trigger] fields[i]).1, "-->"@),
    ensures
        !text::holds(block::fields_text(fields), "-->"@),
    decreases fields.len(),
{
    reveal_strlit("-->");
    reveal_strlit(": ");
    reveal_strlit("\n");
    let s = block::fields_text(fields);
    let close = "-->"@;
    if fields.len() == 0 {
        text::lemma_find_from(s, close, 0);
    } else {
        let rest = fields.drop_last();
        let (k, v) = fields.last();
        assert forall|i: int| 0 <= i < rest.len() implies !text::holds(
            (#[trigger] rest[i]).1,
            close,
        ) by {
            assert(rest[i] == fields[i]);
        }
        assert forall|i: int| 0 <= i < rest.len() implies block::is_key((#[trigger] rest[i]).0)
            && block::tidy(rest[i].1) by {
            assert(rest[i] == fields[i]);
        }
        assert(fields[fields.len() - 1] == (k, v));
        lemma_payload_open(rest);
        block::lemma_fields_read_back(rest);
        let a = block::fields_text(rest);
        let n = a.len() as int;
        let m = n + k.len();
        assert(s == a + k + ": "@ + v + "\n"@);
        text::lemma_find_from(a, close, 0);
        text::lemma_find_from(v, close, 0);
        assert forall|j: int| 0 <= j implies !text::occurs_at(s, close, j) by {
            if text::occurs_at(s, close, j) {
                assert(s.subrange(j, j + 3)[0] == s[j]);
                assert(s.subrange(j, j + 3)[1] == s[j + 1]);
                assert(s.subrange(j, j + 3)[2] == s[j + 2]);
                assert(s[j] == '-' && s[j + 1] == '-' && s[j + 2] == '>');
                if j < n {
                    if j + 3 <= n {
                        assert(a.subrange(j, j + 3) == s.subrange(j, j + 3));
                        assert(text::occurs_at(a, close, j));
                    } else {
                        assert(s[n - 1] == a.last());
                    }
                } else if j < m {
                    assert(s[j] == k[j - n]);
                } else if j < m + 2 {
                    assert(s[j] == ": "@[j - m]);
                } else {
                    assert(s[s.len() - 1] == '\n');
                    assert(v.subrange(j - m - 2, j - m + 1) == s.subrange(j, j + 3));
                    assert(text::occurs_at(v, close, j - m - 2));
                }
            }
        }
        text::lemma_not_found(s, close, 0);
    }
}

/// A text of characters that are neither white space nor `>` is plain.
proof fn lemma_plain(s: Seq<char>)
    requires
        forall|i: int| 0 <= i < s.len() ==> !text::is_space(#[trigger] s[i]) && s[i] != '>',
    ensures
        plain(s),
        unbroken(s),
{
    reveal_strlit("-->");
    if s.len() > 0 {
        assert(!text::is_space(s[0]));
        assert(!text::is_space(s[s.len() - 1]));
    }
    text::lemma_trimmed_already(s);
    assert forall|i: int| 0 <= i < s.len() implies #[trigger] s[i] != '\n' by {
        assert(!text::is_space(s[i]));
    }
    assert forall|j: int| 0 <= j implies !text::occurs_at(s, "-->"@, j) by {
        if text::occurs_at(s, "-->"@, j) {
            assert(s.subrange(j, j + 3)[2] == s[j + 2]);
        }
    }
    text::lemma_not_found(s, "-->"@, 0);
}

proof fn lemma_decimal_plain(n: nat)
    ensures
        plain(text::decimal(n)),
{
    text::lemma_decimal(n);
    let s = text::decimal(n);
    assert forall|i: int| 0 <= i < s.len() implies !text::is_space(#[trigger] s[i]) && s[i]
        != '>' by {
        assert(text::is_digit(s[i]));
    }
    lemma_plain(s);
}

proof fn lemma_number_plain(s: Seq<char>)
    requires
        metric::shows_number(s),
    ensures
        plain(s),
        s != "none"@,
{
    reveal_strlit("none");
    assert forall|i: int| 0 <= i < s.len() implies !text::is_space(#[trigger] s[i]) && s[i]
        != '>' by {
        assert(metric::is_number_char(s[i]));
    }
    lemma_plain(s);
    if s == "none"@ {
        assert(metric::is_number_char(s[1]));
    }
}

proof fn lemma_words_plain(o: Observation, r: ReleaseReason, d: Outcome)
    ensures
        plain(o.word()),
        plain(r.word()),
        plain(d.word()),
        plain("none"@),
{
    reveal_strlit("improved");
    reveal_strlit("no_improvement");
    reveal_strlit("crashed");
    reveal_strlit("infra_failure");
    reveal_strlit("timeout");
    reveal_strlit("accepted");
    reveal_strlit("non_improvement");
    reveal_strlit("disagreement");
    reveal_strlit("stale");
    reveal_strlit("policy_rejection");
    reveal_strlit("none");
    lemma_plain(o.word());
    lemma_plain(r.word());
    lemma_plain(d.word());
    lemma_plain("none"@);
}

proof fn lemma_stamp_plain(s: Seq<char>)
    requires
        forall|i: int| 0 <= i < s.len() ==> time::is_stamp_char(#[trigger] s[i]),
    ensures
        plain(s),
{
    assert forall|i: int| 0 <= i < s.len() implies !text::is_space(#[trigger] s[i]) && s[i]
        != '>' by {
        assert(time::is_stamp_char(s[i]));
    }
    lemma_plain(s);
}

broadcast proof fn lemma_unbroken_sum(a: Seq<char>, b: Seq<char>)
    requires
        unbroken(a),
        unbroken(b),
    ensures
        #[trigger] unbroken(a + b),
{
    assert forall|i: int| 0 <= i < (a + b).len() implies #[trigger] (a + b)[i] != '\n' by {
        if i < a.len() {
            assert((a + b)[i] == a[i]);
        } else {
            assert((a + b)[i] == b[i - a.len()]);
        }
    }
}

proof fn lemma_json_unbroken(s: Seq<char>)
    ensures
        unbroken(json::string_json(s)),
{
    json::lemma_no_control(s);
    let inner = json::escapes(s);
    assert forall|i: int| 0 <= i < inner.len() implies #[trigger] inner[i] != '\n' by {
        assert(inner[i] as u32 >= 32);
    }
    lemma_unbroken_sum(seq!['"'], inner);
    lemma_unbroken_sum(seq!['"'] + inner, seq!['"']);
}

proof fn lemma_annotation_unbroken(a: AnnotationView)
    ensures
        unbroken(comments::annotation_json(a)),
{
    reveal_strlit("{\"category\":");
    reveal_strlit(",\"task_id\":");
    reveal_strlit(",\"text\":");
    reveal_strlit("}");
    let start = "{\"category\":"@ + json::string_json(a.category);
    lemma_json_unbroken(a.category);
    lemma_unbroken_sum("{\"category\":"@, json::string_json(a.category));
    let middle = match a.task_id {
        Some(id) => start + ",\"task_id\":"@ + json::string_json(id),
        None => start,
    };
    match a.task_id {
        Some(id) => {
            lemma_json_unbroken(id);
            lemma_unbroken_sum(start, ",\"task_id\":"@);
            lemma_unbroken_sum(start + ",\"task_id\":"@, json::string_json(id));
        },
        None => {},
    }
    lemma_json_unbroken(a.text);
    lemma_unbroken_sum(middle, ",\"text\":"@);
    lemma_unbroken_sum(middle + ",\"text\":"@, json::string_json(a.text));
    lemma_unbroken_sum(middle + ",\"text\":"@ + json::string_json(a.text), "}"@);
}

proof fn lemma_joined_unbroken(parts: Seq<Seq<char>>)
    requires
        forall|i: int| 0 <= i < parts.len() ==> unbroken(#[trigger] parts[i]),
    ensures
        unbroken(text::joined(parts, ","@)),
    decreases parts.len(),
{
    reveal_strlit(",");
    if parts.len() > 1 {
        let rest = parts.drop_last();
        assert forall|i: int| 0 <= i < rest.len() implies unbroken(#[trigger] rest[i]) by {
            assert(rest[i] == parts[i]);
        }
        lemma_joined_unbroken(rest);
        assert(unbroken(parts[parts.len() - 1]));
        lemma_unbroken_sum(text::joined(rest, ","@), ","@);
        lemma_unbroken_sum(text::joined(rest, ","@) + ","@, parts.last());
    } else if parts.len() == 1 {
        assert(unbroken(parts[0]));
    }
}

proof fn lemma_annotations_tidy(a: Seq<AnnotationView>)
    ensures
        block::tidy(comments::annotations_json(a)),
        comments::annotations_json(a) != "none"@,
{
    reveal_strlit("[");
    reveal_strlit("]");
    reveal_strlit("none");
    let items = a.map_values(|x: AnnotationView| comments::annotation_json(x));
    assert forall|i: int| 0 <= i < items.len() implies unbroken(#[trigger] items[i]) by {
        lemma_annotation_unbroken(a[i]);
    }
    lemma_joined_unbroken(items);
    let inner = text::joined(items, ","@);
    lemma_unbroken_sum("["@, inner);
    lemma_unbroken_sum("["@ + inner, "]"@);
    let s = comments::annotations_json(a);
    assert(s[0] == '[');
    assert(s.last() == ']');
    text::lemma_trimmed_already(s);
    assert("none"@[0] == 'n');
}

/// The names of kinds are made of the characters of kinds.
proof fn lemma_kind_chars(c: CommentView)
    requires
        !(c is SlashApprove),
        !(c is SlashReject),
    ensures
        c.kind().len() > 0,
        forall|i: int| 0 <= i < c.kind().len() ==> block::is_kind_char(#[trigger] c.kind()[i]),
{
    reveal_strlit("approval");
    reveal_strlit("claim");
    reveal_strlit("release");
    reveal_strlit("attempt");
    reveal_strlit("annotation");
    reveal_strlit("policy-pass");
    reveal_strlit("review-claim");
    reveal_strlit("review");
    reveal_strlit("decision");
    reveal_strlit("admin-note");
}

/// A text that can open a readable line.
spec fn opens(s: Seq<char>) -> bool {
    unbroken(s) && s.len() > 0 && s[0] == 'P'
}

/// A text that can close a readable line.
spec fn closes(s: Seq<char>) -> bool {
    unbroken(s) && s.len() > 0 && s.last() == '.'
}

/// The openings of readable lines.
proof fn lemma_openings()
    ensures
        opens("Polyresearch approval: thesis #"@),
        opens("Polyresearch claim: thesis #"@),
        opens("Polyresearch release: thesis #"@),
        opens("Polyresearch attempt: thesis #"@),
        opens("Polyresearch annotation: thesis #"@),
        opens("Polyresearch policy pass: thesis #"@),
        opens("Polyresearch review claim: thesis #"@),
        opens("Polyresearch review: thesis #"@),
        opens("Polyresearch decision: thesis #"@),
        opens("Polyresearch admin repair: "@),
{
    reveal_strlit("Polyresearch approval: thesis #");
    reveal_strlit("Polyresearch claim: thesis #");
    reveal_strlit("Polyresearch release: thesis #");
    reveal_strlit("Polyresearch attempt: thesis #");
    reveal_strlit("Polyresearch annotation: thesis #");
    reveal_strlit("Polyresearch policy pass: thesis #");
    reveal_strlit("Polyresearch review claim: thesis #");
    reveal_strlit("Polyresearch review: thesis #");
    reveal_strlit("Polyresearch decision: thesis #");
    reveal_strlit("Polyresearch admin repair: ");
}

/// The middles and ends of readable lines.
proof fn lemma_fragments()
    ensures
        closes("."@),
        closes("`."@),
        closes("`)."@),
        unbroken(" by node `"@),
        unbroken("` (`reason: "@),
        unbroken(", branch `"@),
        unbroken("`, metric `"@),
        unbroken("`, observation `"@),
        unbroken(", candidate `"@),
        unbroken("`, candidate `"@),
        unbroken("`, baseline `"@),
        unbroken("`, outcome `"@),
{
    reveal_strlit(".");
    reveal_strlit("`.");
    reveal_strlit("`).");
    reveal_strlit(" by node `");
    reveal_strlit("` (`reason: ");
    reveal_strlit(", branch `");
    reveal_strlit("`, metric `");
    reveal_strlit("`, observation `");
    reveal_strlit(", candidate `");
    reveal_strlit("`, candidate `");
    reveal_strlit("`, baseline `");
    reveal_strlit("`, outcome `");
}

/// The values in the readable first line are unbroken where the comment is legible.
proof fn lemma_summary_line(c: CommentView)
    requires
        !(c is SlashApprove),
        !(c is SlashReject),
        c.legible(),
    ensures
        unbroken(c.summary_line()),
        c.summary_line().len() > 0,
        c.summary_line()[0] == 'P',
        c.summary_line().last() == '.',
{
    lemma_openings();
    lemma_fragments();
    broadcast use lemma_unbroken_sum;

    match c {
        CommentView::Approval { thesis } => {
            lemma_decimal_plain(thesis as nat);
        },
        CommentView::Claim { thesis, node } => {
            lemma_decimal_plain(thesis as nat);
        },
        CommentView::Release { thesis, node, reason } => {
            lemma_decimal_plain(thesis as nat);
            lemma_words_plain(Observation::Improved, reason, Outcome::Accepted);
        },
        CommentView::Attempt { thesis, metric, observation, .. } => {
            lemma_decimal_plain(thesis as nat);
            lemma_number_plain(metric.text);
            lemma_words_plain(observation, ReleaseReason::Timeout, Outcome::Accepted);
        },
        CommentView::Annotation { thesis, .. } => {
            lemma_decimal_plain(thesis as nat);
        },
        CommentView::PolicyPass { thesis, .. } => {
            lemma_decimal_plain(thesis as nat);
        },
        CommentView::ReviewClaim { thesis, .. } => {
            lemma_decimal_plain(thesis as nat);
        },
        CommentView::Review { thesis, metric, baseline_metric, observation, .. } => {
            lemma_decimal_plain(thesis as nat);
            lemma_number_plain(metric.text);
            lemma_number_plain(baseline_metric.text);
            lemma_words_plain(observation, ReleaseReason::Timeout, Outcome::Accepted);
        },
        CommentView::Decision { thesis, outcome, .. } => {
            lemma_decimal_plain(thesis as nat);
            lemma_words_plain(Observation::Improved, ReleaseReason::Timeout, outcome);
        },
        CommentView::AdminNote { .. } => {},
        _ => {},
    }
}

/// The fields of a legible comment can be read back.
proof fn lemma_fields_plain(c: CommentView)
    requires
        !(c is SlashApprove),
        !(c is SlashReject),
        c.legible(),
        c.stamped(),
    ensures
        block::proper(c.fields()),
        forall|i: int|
            0 <= i < c.fields().len() ==> !text::holds((#[trigger] c.fields()[i]).1, "-->"@),
{
    lemma_keys();
    match c {
        CommentView::Approval { thesis } => {
            lemma_decimal_plain(thesis as nat);
        },
        CommentView::Claim { thesis, node } => {
            lemma_decimal_plain(thesis as nat);
        },
        CommentView::Release { thesis, node, reason } => {
            lemma_decimal_plain(thesis as nat);
            lemma_words_plain(Observation::Improved, reason, Outcome::Accepted);
        },
        CommentView::Attempt { thesis, metric, baseline_metric, observation, annotations, .. } => {
            lemma_decimal_plain(thesis as nat);
            lemma_number_plain(metric.text);
            if let Some(b) = baseline_metric {
                lemma_number_plain(b.text);
            }
            lemma_words_plain(observation, ReleaseReason::Timeout, Outcome::Accepted);
            if let Some(a) = annotations {
                lemma_annotations_tidy(a);
            }
        },
        CommentView::Annotation { thesis, .. } => {
            lemma_decimal_plain(thesis as nat);
        },
        CommentView::PolicyPass { thesis, .. } => {
            lemma_decimal_plain(thesis as nat);
        },
        CommentView::ReviewClaim { thesis, .. } => {
            lemma_decimal_plain(thesis as nat);
        },
        CommentView::Review { thesis, metric, baseline_metric, observation, timestamp, .. } => {
            lemma_decimal_plain(thesis as nat);
            lemma_number_plain(metric.text);
            lemma_number_plain(baseline_metric.text);
            lemma_words_plain(observation, ReleaseReason::Timeout, Outcome::Accepted);
            lemma_stamp_plain(time::rfc3339_text(timestamp.secs, timestamp.nanos));
        },
        CommentView::Decision { thesis, outcome, confirmations, .. } => {
            lemma_decimal_plain(thesis as nat);
            lemma_decimal_plain(confirmations as nat);
            lemma_words_plain(Observation::Improved, ReleaseReason::Timeout, outcome);
        },
        CommentView::AdminNote { related_comment_id, .. } => {
            if let Some(id) = related_comment_id {
                lemma_decimal_plain(id as nat);
            }
        },
        _ => {},
    }
}

/// A comment that shows nothing between its first line and its block cannot be mistaken.
proof fn lemma_unmistakable(c: CommentView)
    requires
        !(c is SlashApprove),
        !(c is SlashReject),
        c.legible(),
        c.shown_body() is None,
    ensures
        c.unmistakable(),
{
    reveal_strlit("\n\n");
    reveal_strlit("<!-- polyresearch:");
    lemma_summary_line(c);
    let line = c.summary_line();
    let s = c.rendered();
    assert(s.take(line.len() as int) == line);
    assert(s[line.len() as int] == '\n');
    assert(s[(line.len() + 1) as int] == '\n');
    assert forall|i: int|
        0 <= i < block::head_text(c.summary_line(), c.shown_body()).len() implies #[trigger] block::header_at(
        c.rendered(),
        i,
    ) is None by {
        block::lemma_no_header_in_line(s, line, i);
    }
}

/// A written block is found where it was put, with its kind and its fields.
proof fn lemma_block_found(c: CommentView)
    requires
        !(c is SlashApprove),
        !(c is SlashReject),
        c.legible(),
        c.stamped(),
    ensures
        ({
            let head = block::head_text(c.summary_line(), c.shown_body());
            &&& block::first_block(c.rendered(), 0) == Some(
                block::Block {
                    start: head.len() as int,
                    kind: c.kind(),
                    payload: block::fields_text(c.fields()),
                },
            )
            &&& block::fields_of(block::fields_text(c.fields())) == c.fields()
            &&& !block::quoted(head)
        }),
{
    lemma_summary_line(c);
    lemma_fields_plain(c);
    lemma_payload_open(c.fields());
    lemma_kind_chars(c);
    if c.shown_body() is None {
        lemma_unmistakable(c);
    }
    block::lemma_block_read_back(c.summary_line(), c.shown_body(), c.kind(), c.fields());
    block::lemma_fields_read_back(c.fields());
}

/// A written block is read as a comment of its kind with its fields.
proof fn lemma_block_parsed(c: CommentView, r: ReadingsView)
    requires
        !(c is SlashApprove),
        !(c is SlashReject),
        c.legible(),
        c.stamped(),
    ensures
        comments::parsed(c.rendered(), r) == comments::typed(
            c.kind(),
            c.fields(),
            block::visible_body(block::head_text(c.summary_line(), c.shown_body())),
            r,
        ),
{
    reveal_strlit("-->");
    reveal_strlit("/approve");
    reveal_strlit("/reject");
    lemma_summary_line(c);
    lemma_block_found(c);
    let s = c.rendered();
    let head = block::head_text(c.summary_line(), c.shown_body());
    assert(s[0] == 'P') by {
        assert(head[0] == c.summary_line()[0]);
        assert(s[0] == head[0]);
    }
    assert(s.last() == '>');
    text::lemma_trimmed_already(s);
    assert(s.take("/approve"@.len() as int)[0] == s[0] || s.len() < "/approve"@.len());
    assert(s.take("/reject"@.len() as int)[0] == s[0] || s.len() < "/reject"@.len());
    assert(text::after_prefix(s, "/approve"@) is None);
    assert(text::after_prefix(s, "/reject"@) is None);
    assert(s.take(head.len() as int) == head);
}

/// The names of kinds differ.
proof fn lemma_kinds_differ()
    ensures
        "claim"@ != "approval"@,
        "release"@ != "approval"@,
        "release"@ != "claim"@,
        "attempt"@ != "approval"@,
        "attempt"@ != "claim"@,
        "attempt"@ != "release"@,
        "annotation"@ != "approval"@,
        "annotation"@ != "claim"@,
        "annotation"@ != "release"@,
        "annotation"@ != "attempt"@,
        "policy-pass"@ != "approval"@,
        "policy-pass"@ != "claim"@,
        "policy-pass"@ != "release"@,
        "policy-pass"@ != "attempt"@,
        "policy-pass"@ != "annotation"@,
        "review-claim"@ != "approval"@,
        "review-claim"@ != "claim"@,
        "review-claim"@ != "release"@,
        "review-claim"@ != "attempt"@,
        "review-claim"@ != "annotation"@,
        "review-claim"@ != "policy-pass"@,
        "review"@ != "approval"@,
        "review"@ != "claim"@,
        "review"@ != "release"@,
        "review"@ != "attempt"@,
        "review"@ != "annotation"@,
        "review"@ != "policy-pass"@,
        "review"@ != "review-claim"@,
        "decision"@ != "approval"@,
        "decision"@ != "claim"@,
        "decision"@ != "release"@,
        "decision"@ != "attempt"@,
        "decision"@ != "annotation"@,
        "decision"@ != "policy-pass"@,
        "decision"@ != "review-claim"@,
        "decision"@ != "review"@,
        "admin-note"@ != "approval"@,
        "admin-note"@ != "claim"@,
        "admin-note"@ != "release"@,
        "admin-note"@ != "attempt"@,
        "admin-note"@ != "annotation"@,
        "admin-note"@ != "policy-pass"@,
        "admin-note"@ != "review-claim"@,
        "admin-note"@ != "review"@,
        "admin-note"@ != "decision"@,
{
    reveal_strlit("approval");
    reveal_strlit("claim");
    reveal_strlit("release");
    reveal_strlit("attempt");
    reveal_strlit("annotation");
    reveal_strlit("policy-pass");
    reveal_strlit("review-claim");
    reveal_strlit("review");
    reveal_strlit("decision");
    reveal_strlit("admin-note");
    assert("approval"@.len() == 8 && "approval"@[0] == 'a' && "approval"@[1] == 'p');
    assert("claim"@.len() == 5 && "claim"@[0] == 'c' && "claim"@[1] == 'l');
    assert("release"@.len() == 7 && "release"@[0] == 'r' && "release"@[1] == 'e');
    assert("attempt"@.len() == 7 && "attempt"@[0] == 'a' && "attempt"@[1] == 't');
    assert("annotation"@.len() == 10 && "annotation"@[0] == 'a' && "annotation"@[1] == 'n');
    assert("policy-pass"@.len() == 11 && "policy-pass"@[0] == 'p' && "policy-pass"@[1] == 'o');
    assert("review-claim"@.len() == 12 && "review-claim"@[0] == 'r' && "review-claim"@[1] == 'e');
    assert("review"@.len() == 6 && "review"@[0] == 'r' && "review"@[1] == 'e');
    assert("decision"@.len() == 8 && "decision"@[0] == 'd' && "decision"@[1] == 'e');
    assert("admin-note"@.len() == 10 && "admin-note"@[0] == 'a' && "admin-note"@[1] == 'd');
}

proof fn lemma_attempt_keys_differ()
    ensures
        "branch"@ != "thesis"@,
        "metric"@ != "thesis"@,
        "metric"@ != "branch"@,
        "baseline_metric"@ != "thesis"@,
        "baseline_metric"@ != "branch"@,
        "baseline_metric"@ != "metric"@,
        "observation"@ != "thesis"@,
        "observation"@ != "branch"@,
        "observation"@ != "metric"@,
        "observation"@ != "baseline_metric"@,
        "summary"@ != "thesis"@,
        "summary"@ != "branch"@,
        "summary"@ != "metric"@,
        "summary"@ != "baseline_metric"@,
        "summary"@ != "observation"@,
        "annotations"@ != "thesis"@,
        "annotations"@ != "branch"@,
        "annotations"@ != "metric"@,
        "annotations"@ != "baseline_metric"@,
        "annotations"@ != "observation"@,
        "annotations"@ != "summary"@,
{
    reveal_strlit("thesis");
    reveal_strlit("branch");
    reveal_strlit("metric");
    reveal_strlit("baseline_metric");
    reveal_strlit("observation");
    reveal_strlit("summary");
    reveal_strlit("annotations");
    assert("thesis"@.len() == 6 && "thesis"@[0] == 't' && "thesis"@[1] == 'h' && "thesis"@[2] == 'e');
    assert("branch"@.len() == 6 && "branch"@[0] == 'b' && "branch"@[1] == 'r' && "branch"@[2] == 'a');
    assert("metric"@.len() == 6 && "metric"@[0] == 'm' && "metric"@[1] == 'e' && "metric"@[2] == 't');
    assert("baseline_metric"@.len() == 15 && "baseline_metric"@[0] == 'b' && "baseline_metric"@[1] == 'a' && "baseline_metric"@[2] == 's');
    assert("observation"@.len() == 11 && "observation"@[0] == 'o' && "observation"@[1] == 'b' && "observation"@[2] == 's');
    assert("summary"@.len() == 7 && "summary"@[0] == 's' && "summary"@[1] == 'u' && "summary"@[2] == 'm');
    assert("annotations"@.len() == 11 && "annotations"@[0] == 'a' && "annotations"@[1] == 'n' && "annotations"@[2] == 'n');
}

proof fn lemma_review_keys_differ()
    ensures
        "candidate_sha"@ != "thesis"@,
        "base_sha"@ != "thesis"@,
        "base_sha"@ != "candidate_sha"@,
        "node"@ != "thesis"@,
        "node"@ != "candidate_sha"@,
        "node"@ != "base_sha"@,
        "metric"@ != "thesis"@,
        "metric"@ != "candidate_sha"@,
        "metric"@ != "base_sha"@,
        "metric"@ != "node"@,
        "baseline_metric"@ != "thesis"@,
        "baseline_metric"@ != "candidate_sha"@,
        "baseline_metric"@ != "base_sha"@,
        "baseline_metric"@ != "node"@,
        "baseline_metric"@ != "metric"@,
        "observation"@ != "thesis"@,
        "observation"@ != "candidate_sha"@,
        "observation"@ != "base_sha"@,
        "observation"@ != "node"@,
        "observation"@ != "metric"@,
        "observation"@ != "baseline_metric"@,
        "env_sha"@ != "thesis"@,
        "env_sha"@ != "candidate_sha"@,
        "env_sha"@ != "base_sha"@,
        "env_sha"@ != "node"@,
        "env_sha"@ != "metric"@,
        "env_sha"@ != "baseline_metric"@,
        "env_sha"@ != "observation"@,
        "timestamp"@ != "thesis"@,
        "timestamp"@ != "candidate_sha"@,
        "timestamp"@ != "base_sha"@,
        "timestamp"@ != "node"@,
        "timestamp"@ != "metric"@,
        "timestamp"@ != "baseline_metric"@,
        "timestamp"@ != "observation"@,
        "timestamp"@ != "env_sha"@,
{
    reveal_strlit("thesis");
    reveal_strlit("candidate_sha");
    reveal_strlit("base_sha");
    reveal_strlit("node");
    reveal_strlit("metric");
    reveal_strlit("baseline_metric");
    reveal_strlit("observation");
    reveal_strlit("env_sha");
    reveal_strlit("timestamp");
    assert("thesis"@.len() == 6 && "thesis"@[0] == 't' && "thesis"@[1] == 'h' && "thesis"@[2] == 'e');
    assert("candidate_sha"@.len() == 13 && "candidate_sha"@[0] == 'c' && "candidate_sha"@[1] == 'a' && "candidate_sha"@[2] == 'n');
    assert("base_sha"@.len() == 8 && "base_sha"@[0] == 'b' && "base_sha"@[1] == 'a' && "base_sha"@[2] == 's');
    assert("node"@.len() == 4 && "node"@[0] == 'n' && "node"@[1] == 'o' && "node"@[2] == 'd');
    assert("metric"@.len() == 6 && "metric"@[0] == 'm' && "metric"@[1] == 'e' && "metric"@[2] == 't');
    assert("baseline_metric"@.len() == 15 && "baseline_metric"@[0] == 'b' && "baseline_metric"@[1] == 'a' && "baseline_metric"@[2] == 's');
    assert("observation"@.len() == 11 && "observation"@[0] == 'o' && "observation"@[1] == 'b' && "observation"@[2] == 's');
    assert("env_sha"@.len() == 7 && "env_sha"@[0] == 'e' && "env_sha"@[1] == 'n' && "env_sha"@[2] == 'v');
    assert("timestamp"@.len() == 9 && "timestamp"@[0] == 't' && "timestamp"@[1] == 'i' && "timestamp"@[2] == 'm');
}

proof fn lemma_short_keys_differ()
    ensures
        "node"@ != "thesis"@,
        "reason"@ != "thesis"@,
        "reason"@ != "node"@,
        "candidate_sha"@ != "thesis"@,
        "candidate_sha"@ != "node"@,
        "candidate_sha"@ != "reason"@,
        "outcome"@ != "thesis"@,
        "outcome"@ != "node"@,
        "outcome"@ != "reason"@,
        "outcome"@ != "candidate_sha"@,
        "confirmations"@ != "thesis"@,
        "confirmations"@ != "node"@,
        "confirmations"@ != "reason"@,
        "confirmations"@ != "candidate_sha"@,
        "confirmations"@ != "outcome"@,
{
    reveal_strlit("thesis");
    reveal_strlit("node");
    reveal_strlit("reason");
    reveal_strlit("candidate_sha");
    reveal_strlit("outcome");
    reveal_strlit("confirmations");
    assert("thesis"@.len() == 6 && "thesis"@[0] == 't' && "thesis"@[1] == 'h' && "thesis"@[2] == 'e');
    assert("node"@.len() == 4 && "node"@[0] == 'n' && "node"@[1] == 'o' && "node"@[2] == 'd');
    assert("reason"@.len() == 6 && "reason"@[0] == 'r' && "reason"@[1] == 'e' && "reason"@[2] == 'a');
    assert("candidate_sha"@.len() == 13 && "candidate_sha"@[0] == 'c' && "candidate_sha"@[1] == 'a' && "candidate_sha"@[2] == 'n');
    assert("outcome"@.len() == 7 && "outcome"@[0] == 'o' && "outcome"@[1] == 'u' && "outcome"@[2] == 't');
    assert("confirmations"@.len() == 13 && "confirmations"@[0] == 'c' && "confirmations"@[1] == 'o' && "confirmations"@[2] == 'n');
}

proof fn lemma_note_keys_differ()
    ensures
        "target"@ != "action"@,
        "note"@ != "action"@,
        "note"@ != "target"@,
        "related_comment_id"@ != "action"@,
        "related_comment_id"@ != "target"@,
        "related_comment_id"@ != "note"@,
{
    reveal_strlit("action");
    reveal_strlit("target");
    reveal_strlit("note");
    reveal_strlit("related_comment_id");
    assert("action"@.len() == 6 && "action"@[0] == 'a' && "action"@[1] == 'c' && "action"@[2] == 't');
    assert("target"@.len() == 6 && "target"@[0] == 't' && "target"@[1] == 'a' && "target"@[2] == 'r');
    assert("note"@.len() == 4 && "note"@[0] == 'n' && "note"@[1] == 'o' && "note"@[2] == 't');
    assert("related_comment_id"@.len() == 18 && "related_comment_id"@[0] == 'r' && "related_comment_id"@[1] == 'e' && "related_comment_id"@[2] == 'l');
}

proof fn lemma_attempt_reads_back(c: CommentView, r: ReadingsView)
    requires
        c is Attempt,
        c.legible(),
        c.answered(r),
    ensures
        comments::attempt_of(c.fields(), r) == Some(c.with_readings(r)),
{
    lemma_attempt_keys_differ();
    match c {
        CommentView::Attempt { thesis, metric, baseline_metric, observation, annotations, .. } => {
            let f = c.fields();
            text::lemma_number_read_back(thesis as nat, u64::MAX as nat);
            comments::words_read_back(observation, ReleaseReason::Timeout, Outcome::Accepted);
            block::lemma_field_at(f, 0);
            block::lemma_field_at(f, 1);
            block::lemma_field_at(f, 2);
            let k = if baseline_metric is Some {
                4int
            } else {
                3int
            };
            block::lemma_field_at(f, k);
            block::lemma_field_at(f, k + 1);
            assert(f[k] == ("observation"@, observation.word()));
            if let Some(b) = baseline_metric {
                lemma_number_plain(b.text);
                block::lemma_field_at(f, 3);
            } else {
                block::lemma_no_field(f, "baseline_metric"@);
            }
            if let Some(a) = annotations {
                lemma_annotations_tidy(a);
                block::lemma_field_at(f, k + 2);
            } else {
                block::lemma_no_field(f, "annotations"@);
            }
        },
        _ => {},
    }
}

proof fn lemma_review_reads_back(c: CommentView, r: ReadingsView)
    requires
        c is Review,
        c.legible(),
        c.stamped(),
        c.answered(r),
    ensures
        comments::review_of(c.fields(), r) == Some(c.with_readings(r)),
{
    lemma_review_keys_differ();
    match c {
        CommentView::Review { thesis, observation, .. } => {
            let f = c.fields();
            text::lemma_number_read_back(thesis as nat, u64::MAX as nat);
            comments::words_read_back(observation, ReleaseReason::Timeout, Outcome::Accepted);
            block::lemma_field_at(f, 0);
            block::lemma_field_at(f, 1);
            block::lemma_field_at(f, 2);
            block::lemma_field_at(f, 3);
            block::lemma_field_at(f, 4);
            block::lemma_field_at(f, 5);
            block::lemma_field_at(f, 6);
            block::lemma_field_at(f, 7);
            block::lemma_field_at(f, 8);
        },
        _ => {},
    }
}

proof fn lemma_note_reads_back(c: CommentView)
    requires
        c is AdminNote,
    ensures
        comments::note_of(c.fields()) == Some(c),
{
    lemma_note_keys_differ();
    reveal_strlit("none");
    match c {
        CommentView::AdminNote { related_comment_id, .. } => {
            let f = c.fields();
            block::lemma_field_at(f, 0);
            block::lemma_field_at(f, 1);
            block::lemma_field_at(f, 2);
            if let Some(id) = related_comment_id {
                text::lemma_number_read_back(id as nat, u64::MAX as nat);
                text::lemma_decimal(id as nat);
                assert(text::is_digit(text::decimal(id as nat)[0]));
                block::lemma_field_at(f, 3);
            } else {
                block::lemma_no_field(f, "related_comment_id"@);
            }
        },
        _ => {},
    }
}

proof fn lemma_short_reads_back(c: CommentView, body: Option<Seq<char>>, r: ReadingsView)
    requires
        c is Approval || c is Claim || c is Release || c is PolicyPass || c is ReviewClaim
            || c is Decision,
    ensures
        comments::typed(c.kind(), c.fields(), body, r) == Some(c),
{
    lemma_kinds_differ();
    lemma_short_keys_differ();
    let f = c.fields();
    block::lemma_field_at(f, 0);
    match c {
        CommentView::Approval { thesis } => {
            text::lemma_number_read_back(thesis as nat, u64::MAX as nat);
        },
        CommentView::Claim { thesis, .. } => {
            text::lemma_number_read_back(thesis as nat, u64::MAX as nat);
            block::lemma_field_at(f, 1);
        },
        CommentView::ReviewClaim { thesis, .. } => {
            text::lemma_number_read_back(thesis as nat, u64::MAX as nat);
            block::lemma_field_at(f, 1);
        },
        CommentView::PolicyPass { thesis, .. } => {
            text::lemma_number_read_back(thesis as nat, u64::MAX as nat);
            block::lemma_field_at(f, 1);
        },
        CommentView::Release { thesis, reason, .. } => {
            text::lemma_number_read_back(thesis as nat, u64::MAX as nat);
            comments::words_read_back(Observation::Improved, reason, Outcome::Accepted);
            block::lemma_field_at(f, 1);
            block::lemma_field_at(f, 2);
        },
        CommentView::Decision { thesis, outcome, confirmations, .. } => {
            text::lemma_number_read_back(thesis as nat, u64::MAX as nat);
            text::lemma_number_read_back(confirmations as nat, u64::MAX as nat);
            comments::words_read_back(Observation::Improved, ReleaseReason::Timeout, outcome);
            block::lemma_field_at(f, 1);
            block::lemma_field_at(f, 2);
            block::lemma_field_at(f, 3);
        },
        _ => {},
    }
}

/// The text of an annotation is what is readable between its first line and its block.
proof fn lemma_visible(summary: Seq<char>, shown: Seq<char>)
    requires
        unbroken(summary),
        summary.len() > 0,
        summary.last() == '.',
        text::trimmed(shown) == shown,
    ensures
        block::visible_body(block::head_text(summary, Some(shown))) == (if shown.len() > 0 {
            Some(shown)
        } else {
            None
        }),
{
    reveal_strlit("\n\n");
    let gap = "\n\n"@;
    let head = block::head_text(summary, Some(shown));
    let core = summary + gap + shown;
    text::lemma_trimmed_ends(shown);
    assert(head.drop_last().drop_last() == core);
    assert(head.last() == '\n');
    assert(head.drop_last().last() == '\n');
    assert(text::trimmed_end(head) == text::trimmed_end(head.drop_last()));
    assert(text::trimmed_end(head) == text::trimmed_end(core));
    let n = summary.len() as int;
    if shown.len() > 0 {
        assert(core.last() == shown.last());
        assert(text::trimmed_end(core) == core);
        assert(core.subrange(n, n + 2) == gap);
        assert forall|j: int| 0 <= j < n implies !text::occurs_at(core, gap, j) by {
            assert(core.subrange(j, j + 2)[0] == core[j]);
            assert(core[j] == summary[j]);
        }
        text::lemma_found_at(core, gap, 0, n);
        assert(core.skip(n + 2) == shown);
    } else {
        assert(core.drop_last().drop_last() == summary);
        assert(core.last() == '\n');
        assert(core.drop_last().last() == '\n');
        assert(text::trimmed_end(core) == text::trimmed_end(core.drop_last()));
        assert(text::trimmed_end(core) == text::trimmed_end(summary));
        assert(text::trimmed_end(summary) == summary);
        assert forall|j: int| 0 <= j implies !text::occurs_at(summary, gap, j) by {
            if text::occurs_at(summary, gap, j) {
                assert(summary.subrange(j, j + 2)[0] == summary[j]);
            }
        }
        text::lemma_not_found(summary, gap, 0);
    }
}

proof fn lemma_annotation_reads_back(c: CommentView, r: ReadingsView)
    requires
        c is Annotation,
        c.legible(),
    ensures
        comments::typed(
            c.kind(),
            c.fields(),
            block::visible_body(block::head_text(c.summary_line(), c.shown_body())),
            r,
        ) == Some(c),
{
    lemma_kinds_differ();
    lemma_short_keys_differ();
    match c {
        CommentView::Annotation { thesis, text, .. } => {
            let f = c.fields();
            text::lemma_number_read_back(thesis as nat, u64::MAX as nat);
            block::lemma_field_at(f, 0);
            block::lemma_field_at(f, 1);
            lemma_summary_line(c);
            lemma_visible(c.summary_line(), text);
            assert(text.len() == 0 ==> text == Seq::<char>::empty());
        },
        _ => {},
    }
}

proof fn lemma_command_reads_back(c: CommentView, r: ReadingsView)
    requires
        c is SlashApprove || c is SlashReject,
        c.legible(),
    ensures
        comments::parsed(c.rendered(), r) == Some(c),
{
    reveal_strlit("/approve");
    reveal_strlit("/reject");
    reveal_strlit(" ");
    let (command, reason) = match c {
        CommentView::SlashApprove { reason } => ("/approve"@, reason),
        CommentView::SlashReject { reason } => ("/reject"@, reason),
        _ => (Seq::empty(), None),
    };
    let s = c.rendered();
    assert(s[0] == '/');
    assert(s.take(command.len() as int) == command);
    assert(s[1] == command[1]);
    if c is SlashReject {
        if s.len() >= "/approve"@.len() {
            assert(s.take("/approve"@.len() as int)[1] == s[1]);
        }
        assert(text::after_prefix(s, "/approve"@) is None);
    }
    match reason {
        Some(why) => {
            text::lemma_trimmed_ends(why);
            assert(s.last() == why.last());
            text::lemma_trimmed_already(s);
            let rest = s.skip(command.len() as int);
            assert(rest == seq![' '] + why);
            text::lemma_trim_blank(why);
        },
        None => {
            assert(s == command);
            assert(s.last() == 'e' || s.last() == 't');
            text::lemma_trimmed_already(s);
            assert(s.skip(command.len() as int) == Seq::<char>::empty());
        },
    }
}

/// A legible comment, once written, reads back as the comment that it was, with its numbers and
/// remarks as they were read.
pub proof fn rendered_reads_back(c: CommentView, r: ReadingsView)
    requires
        c.legible(),
        c.stamped(),
        c.answered(r),
    ensures
        comments::parsed(c.rendered(), r) == Some(c.with_readings(r)),
{
    if c is SlashApprove || c is SlashReject {
        lemma_command_reads_back(c, r);
    } else {
        lemma_block_parsed(c, r);
        lemma_kinds_differ();
        if c is Attempt {
            lemma_attempt_reads_back(c, r);
        } else if c is Review {
            lemma_review_reads_back(c, r);
        } else if c is AdminNote {
            lemma_note_reads_back(c);
        } else if c is Annotation {
            lemma_annotation_reads_back(c, r);
        } else {
            lemma_short_reads_back(
                c,
                block::visible_body(block::head_text(c.summary_line(), c.shown_body())),
                r,
            );
        }
    }
}

/// The texts that the numbers and the remarks of a written comment are read from are those that
/// show them.
pub proof fn rendered_shows_literals(c: CommentView)
    requires
        c is Attempt || c is Review,
        c.legible(),
        c.stamped(),
    ensures
        c.literals_in(c.rendered()),
{
    lemma_block_found(c);
    lemma_attempt_keys_differ();
    lemma_review_keys_differ();
    let f = c.fields();
    match c {
        CommentView::Attempt { baseline_metric, annotations, .. } => {
            block::lemma_field_at(f, 2);
            if baseline_metric is Some {
                block::lemma_field_at(f, 3);
            } else {
                block::lemma_no_field(f, "baseline_metric"@);
            }
            if annotations is Some {
                block::lemma_field_at(f, f.len() - 1);
            } else {
                block::lemma_no_field(f, "annotations"@);
            }
        },
        CommentView::Review { .. } => {
            block::lemma_field_at(f, 4);
            block::lemma_field_at(f, 5);
        },
        _ => {},
    }
}

} // verus!
