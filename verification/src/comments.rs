//! The comments by which the participants of a project talk to each other.
//!
//! A comment is a slash command, or a readable line followed by a block in an HTML comment that
//! names its kind and lists its fields, one to a line.
use crate::block;
use crate::json;
use crate::metric;
use crate::metric::{Metric, MetricView};
use crate::read_back;
use crate::text;
use crate::time;
use crate::time::Timestamp;
use vstd::prelude::*;
use vstd::string::*;

verus! {

/// What an attempt observed.
#[derive(Clone, Copy, Debug, PartialEq, Eq, PartialOrd, Ord, Hash, Structural)]
pub enum Observation {
    Improved,
    NoImprovement,
    Crashed,
    InfraFailure,
}

/// Why a node gave a thesis back.
#[derive(Clone, Copy, Debug, PartialEq, Eq, PartialOrd, Ord, Hash, Structural)]
pub enum ReleaseReason {
    NoImprovement,
    Timeout,
    InfraFailure,
}

/// How a candidate was decided.
#[derive(Clone, Copy, Debug, PartialEq, Eq, PartialOrd, Ord, Hash, Structural)]
pub enum Outcome {
    Accepted,
    NonImprovement,
    Disagreement,
    Stale,
    PolicyRejection,
    InfraFailure,
}

impl Observation {
    /// The word that stands for the observation in a comment.
    pub open spec fn word(self) -> Seq<char> {
        match self {
            Observation::Improved => "improved"@,
            Observation::NoImprovement => "no_improvement"@,
            Observation::Crashed => "crashed"@,
            Observation::InfraFailure => "infra_failure"@,
        }
    }

    /// The observation that a word stands for.
    pub open spec fn of_word(s: Seq<char>) -> Option<Observation> {
        if s == "improved"@ {
            Some(Observation::Improved)
        } else if s == "no_improvement"@ {
            Some(Observation::NoImprovement)
        } else if s == "crashed"@ {
            Some(Observation::Crashed)
        } else if s == "infra_failure"@ {
            Some(Observation::InfraFailure)
        } else {
            None
        }
    }

    /// The word that stands for the observation.
    pub fn text(&self) -> (r: String)
        ensures
            r@ == self.word(),
    {
        match self {
            Observation::Improved => "improved".to_owned(),
            Observation::NoImprovement => "no_improvement".to_owned(),
            Observation::Crashed => "crashed".to_owned(),
            Observation::InfraFailure => "infra_failure".to_owned(),
        }
    }

    /// Reads the word for an observation.
    pub fn from_text(s: &str) -> (r: Option<Observation>)
        ensures
            r == Observation::of_word(s@),
    {
        if text::same(s, "improved") {
            Some(Observation::Improved)
        } else if text::same(s, "no_improvement") {
            Some(Observation::NoImprovement)
        } else if text::same(s, "crashed") {
            Some(Observation::Crashed)
        } else if text::same(s, "infra_failure") {
            Some(Observation::InfraFailure)
        } else {
            None
        }
    }
}

impl ReleaseReason {
    /// The word that stands for the reason in a comment.
    pub open spec fn word(self) -> Seq<char> {
        match self {
            ReleaseReason::NoImprovement => "no_improvement"@,
            ReleaseReason::Timeout => "timeout"@,
            ReleaseReason::InfraFailure => "infra_failure"@,
        }
    }

    /// The reason that a word stands for.
    pub open spec fn of_word(s: Seq<char>) -> Option<ReleaseReason> {
        if s == "no_improvement"@ {
            Some(ReleaseReason::NoImprovement)
        } else if s == "timeout"@ {
            Some(ReleaseReason::Timeout)
        } else if s == "infra_failure"@ {
            Some(ReleaseReason::InfraFailure)
        } else {
            None
        }
    }

    /// The word that stands for the reason.
    pub fn text(&self) -> (r: String)
        ensures
            r@ == self.word(),
    {
        match self {
            ReleaseReason::NoImprovement => "no_improvement".to_owned(),
            ReleaseReason::Timeout => "timeout".to_owned(),
            ReleaseReason::InfraFailure => "infra_failure".to_owned(),
        }
    }

    /// Reads the word for a reason.
    pub fn from_text(s: &str) -> (r: Option<ReleaseReason>)
        ensures
            r == ReleaseReason::of_word(s@),
    {
        if text::same(s, "no_improvement") {
            Some(ReleaseReason::NoImprovement)
        } else if text::same(s, "timeout") {
            Some(ReleaseReason::Timeout)
        } else if text::same(s, "infra_failure") {
            Some(ReleaseReason::InfraFailure)
        } else {
            None
        }
    }
}

impl Outcome {
    /// The name of the outcome.
    pub open spec fn name(self) -> Seq<char> {
        match self {
            Outcome::Accepted => "Accepted"@,
            Outcome::NonImprovement => "NonImprovement"@,
            Outcome::Disagreement => "Disagreement"@,
            Outcome::Stale => "Stale"@,
            Outcome::PolicyRejection => "PolicyRejection"@,
            Outcome::InfraFailure => "InfraFailure"@,
        }
    }

    /// The name of the outcome.
    pub fn to_name(&self) -> (r: String)
        ensures
            r@ == self.name(),
    {
        match self {
            Outcome::Accepted => "Accepted".to_owned(),
            Outcome::NonImprovement => "NonImprovement".to_owned(),
            Outcome::Disagreement => "Disagreement".to_owned(),
            Outcome::Stale => "Stale".to_owned(),
            Outcome::PolicyRejection => "PolicyRejection".to_owned(),
            Outcome::InfraFailure => "InfraFailure".to_owned(),
        }
    }

    /// The word that stands for the outcome in a comment.
    pub open spec fn word(self) -> Seq<char> {
        match self {
            Outcome::Accepted => "accepted"@,
            Outcome::NonImprovement => "non_improvement"@,
            Outcome::Disagreement => "disagreement"@,
            Outcome::Stale => "stale"@,
            Outcome::PolicyRejection => "policy_rejection"@,
            Outcome::InfraFailure => "infra_failure"@,
        }
    }

    /// The outcome that a word stands for.
    pub open spec fn of_word(s: Seq<char>) -> Option<Outcome> {
        if s == "accepted"@ {
            Some(Outcome::Accepted)
        } else if s == "non_improvement"@ {
            Some(Outcome::NonImprovement)
        } else if s == "disagreement"@ {
            Some(Outcome::Disagreement)
        } else if s == "stale"@ {
            Some(Outcome::Stale)
        } else if s == "policy_rejection"@ {
            Some(Outcome::PolicyRejection)
        } else if s == "infra_failure"@ {
            Some(Outcome::InfraFailure)
        } else {
            None
        }
    }

    /// The word that stands for the outcome.
    pub fn text(&self) -> (r: String)
        ensures
            r@ == self.word(),
    {
        match self {
            Outcome::Accepted => "accepted".to_owned(),
            Outcome::NonImprovement => "non_improvement".to_owned(),
            Outcome::Disagreement => "disagreement".to_owned(),
            Outcome::Stale => "stale".to_owned(),
            Outcome::PolicyRejection => "policy_rejection".to_owned(),
            Outcome::InfraFailure => "infra_failure".to_owned(),
        }
    }

    /// Reads the word for an outcome.
    pub fn from_text(s: &str) -> (r: Option<Outcome>)
        ensures
            r == Outcome::of_word(s@),
    {
        if text::same(s, "accepted") {
            Some(Outcome::Accepted)
        } else if text::same(s, "non_improvement") {
            Some(Outcome::NonImprovement)
        } else if text::same(s, "disagreement") {
            Some(Outcome::Disagreement)
        } else if text::same(s, "stale") {
            Some(Outcome::Stale)
        } else if text::same(s, "policy_rejection") {
            Some(Outcome::PolicyRejection)
        } else if text::same(s, "infra_failure") {
            Some(Outcome::InfraFailure)
        } else {
            None
        }
    }
}

/// The words differ, so that each is read as what it was written for.
pub proof fn words_read_back(o: Observation, r: ReleaseReason, d: Outcome)
    ensures
        Observation::of_word(o.word()) == Some(o),
        ReleaseReason::of_word(r.word()) == Some(r),
        Outcome::of_word(d.word()) == Some(d),
{
    reveal_strlit("improved");
    reveal_strlit("no_improvement");
    reveal_strlit("crashed");
    reveal_strlit("infra_failure");
    reveal_strlit("timeout");
    reveal_strlit("accepted");
    reveal_strlit("non_improvement");
    reveal_strlit("disagreement");
    reveal_strlit("stale");
    reveal_strlit("policy_rejection");
    assert("improved"@[0] != "crashed"@[0]);
    assert("improved"@[0] == 'i' && "improved"@[1] == 'm');
    assert("infra_failure"@[1] == 'n' && "infra_failure"@[0] == 'i');
    assert("no_improvement"@[0] == 'n' && "no_improvement"@[2] == '_');
    assert("non_improvement"@[0] == 'n');
    assert("timeout"@[0] == 't');
    assert("accepted"@[0] == 'a');
    assert("disagreement"@[0] == 'd');
    assert("stale"@[0] == 's');
    assert("policy_rejection"@[0] == 'p');
}

/// A remark that an attempt carries.
#[derive(Debug, PartialEq, Eq)]
pub struct AttemptAnnotation {
    pub category: String,
    pub task_id: Option<String>,
    pub text: String,
}

impl Clone for AttemptAnnotation {
    fn clone(&self) -> (r: Self)
        ensures
            r == *self,
    {
        let task_id = match &self.task_id {
            Some(id) => Some(id.clone()),
            None => None,
        };
        AttemptAnnotation { category: self.category.clone(), task_id, text: self.text.clone() }
    }
}

/// The contents of a remark.
pub struct AnnotationView {
    pub category: Seq<char>,
    pub task_id: Option<Seq<char>>,
    pub text: Seq<char>,
}

/// The contents of a text that may be missing.
pub open spec fn option_text(s: Option<String>) -> Option<Seq<char>> {
    match s {
        Some(t) => Some(t@),
        None => None,
    }
}

impl View for AttemptAnnotation {
    type V = AnnotationView;

    open spec fn view(&self) -> AnnotationView {
        AnnotationView {
            category: self.category@,
            task_id: option_text(self.task_id),
            text: self.text@,
        }
    }
}

/// The contents of a list of remarks.
pub open spec fn annotation_views(v: Seq<AttemptAnnotation>) -> Seq<AnnotationView> {
    v.map_values(|a: AttemptAnnotation| a@)
}

/// The contents of a metric that may be missing.
pub open spec fn option_metric(m: Option<Metric>) -> Option<MetricView> {
    match m {
        Some(v) => Some(v@),
        None => None,
    }
}

/// The contents of remarks that may be missing.
pub open spec fn option_annotations(a: Option<Vec<AttemptAnnotation>>) -> Option<
    Seq<AnnotationView>,
> {
    match a {
        Some(v) => Some(annotation_views(v@)),
        None => None,
    }
}

/// A comment of the protocol.
#[derive(Debug, PartialEq)]
#[allow(inconsistent_fields)]
pub enum ProtocolComment {
    SlashApprove { reason: Option<String> },
    SlashReject { reason: Option<String> },
    Approval { thesis: u64 },
    Claim { thesis: u64, node: String },
    Release { thesis: u64, node: String, reason: ReleaseReason },
    Attempt {
        thesis: u64,
        branch: String,
        metric: Metric,
        baseline_metric: Option<Metric>,
        observation: Observation,
        summary: String,
        annotations: Option<Vec<AttemptAnnotation>>,
    },
    Annotation { thesis: u64, node: String, text: String },
    PolicyPass { thesis: u64, candidate_sha: String },
    ReviewClaim { thesis: u64, node: String },
    Review {
        thesis: u64,
        candidate_sha: String,
        base_sha: String,
        node: String,
        metric: Metric,
        baseline_metric: Metric,
        observation: Observation,
        env_sha: Option<String>,
        timestamp: Timestamp,
    },
    Decision { thesis: u64, candidate_sha: String, outcome: Outcome, confirmations: u64 },
    AdminNote { action: String, target: String, note: String, related_comment_id: Option<u64> },
}

/// The contents of a comment.
#[allow(inconsistent_fields)]
pub enum CommentView {
    SlashApprove { reason: Option<Seq<char>> },
    SlashReject { reason: Option<Seq<char>> },
    Approval { thesis: u64 },
    Claim { thesis: u64, node: Seq<char> },
    Release { thesis: u64, node: Seq<char>, reason: ReleaseReason },
    Attempt {
        thesis: u64,
        branch: Seq<char>,
        metric: MetricView,
        baseline_metric: Option<MetricView>,
        observation: Observation,
        summary: Seq<char>,
        annotations: Option<Seq<AnnotationView>>,
    },
    Annotation { thesis: u64, node: Seq<char>, text: Seq<char> },
    PolicyPass { thesis: u64, candidate_sha: Seq<char> },
    ReviewClaim { thesis: u64, node: Seq<char> },
    Review {
        thesis: u64,
        candidate_sha: Seq<char>,
        base_sha: Seq<char>,
        node: Seq<char>,
        metric: MetricView,
        baseline_metric: MetricView,
        observation: Observation,
        env_sha: Option<Seq<char>>,
        timestamp: Timestamp,
    },
    Decision { thesis: u64, candidate_sha: Seq<char>, outcome: Outcome, confirmations: u64 },
    AdminNote {
        action: Seq<char>,
        target: Seq<char>,
        note: Seq<char>,
        related_comment_id: Option<u64>,
    },
}

impl View for ProtocolComment {
    type V = CommentView;

    open spec fn view(&self) -> CommentView {
        match *self {
            ProtocolComment::SlashApprove { reason } => CommentView::SlashApprove {
                reason: option_text(reason),
            },
            ProtocolComment::SlashReject { reason } => CommentView::SlashReject {
                reason: option_text(reason),
            },
            ProtocolComment::Approval { thesis } => CommentView::Approval { thesis },
            ProtocolComment::Claim { thesis, node } => CommentView::Claim { thesis, node: node@ },
            ProtocolComment::Release { thesis, node, reason } => CommentView::Release {
                thesis,
                node: node@,
                reason,
            },
            ProtocolComment::Attempt {
                thesis,
                branch,
                metric,
                baseline_metric,
                observation,
                summary,
                annotations,
            } => CommentView::Attempt {
                thesis,
                branch: branch@,
                metric: metric@,
                baseline_metric: option_metric(baseline_metric),
                observation,
                summary: summary@,
                annotations: option_annotations(annotations),
            },
            ProtocolComment::Annotation { thesis, node, text } => CommentView::Annotation {
                thesis,
                node: node@,
                text: text@,
            },
            ProtocolComment::PolicyPass { thesis, candidate_sha } => CommentView::PolicyPass {
                thesis,
                candidate_sha: candidate_sha@,
            },
            ProtocolComment::ReviewClaim { thesis, node } => CommentView::ReviewClaim {
                thesis,
                node: node@,
            },
            ProtocolComment::Review {
                thesis,
                candidate_sha,
                base_sha,
                node,
                metric,
                baseline_metric,
                observation,
                env_sha,
                timestamp,
            } => CommentView::Review {
                thesis,
                candidate_sha: candidate_sha@,
                base_sha: base_sha@,
                node: node@,
                metric: metric@,
                baseline_metric: baseline_metric@,
                observation,
                env_sha: option_text(env_sha),
                timestamp,
            },
            ProtocolComment::Decision { thesis, candidate_sha, outcome, confirmations } =>
                CommentView::Decision {
                thesis,
                candidate_sha: candidate_sha@,
                outcome,
                confirmations,
            },
            ProtocolComment::AdminNote { action, target, note, related_comment_id } =>
                CommentView::AdminNote {
                action: action@,
                target: target@,
                note: note@,
                related_comment_id,
            },
        }
    }
}

/// What the numbers and the JSON text in the fields of a block read as; nothing where a field is
/// missing or does not read.
#[derive(Debug)]
pub struct Readings {
    pub metric: Option<Metric>,
    pub baseline_metric: Option<Metric>,
    pub annotations: Option<Vec<AttemptAnnotation>>,
}

/// The contents of the readings.
pub struct ReadingsView {
    pub metric: Option<MetricView>,
    pub baseline_metric: Option<MetricView>,
    pub annotations: Option<Seq<AnnotationView>>,
}

impl View for Readings {
    type V = ReadingsView;

    open spec fn view(&self) -> ReadingsView {
        ReadingsView {
            metric: option_metric(self.metric),
            baseline_metric: option_metric(self.baseline_metric),
            annotations: option_annotations(self.annotations),
        }
    }
}

/// The texts in the fields of a block that hold numbers and JSON.
#[derive(Debug, PartialEq, Eq)]
pub struct Literals {
    pub metric: Option<String>,
    pub baseline_metric: Option<String>,
    pub annotations: Option<String>,
}

/// The fields of a list of fields.
pub type Fields = Seq<(Seq<char>, Seq<char>)>;

/// A field that may be missing or say `none`.
pub open spec fn optional(f: Fields, key: Seq<char>) -> Option<Seq<char>> {
    match block::field(f, key) {
        Some(v) => if v == "none"@ {
            None
        } else {
            Some(v)
        },
        None => None,
    }
}

/// A field that holds a number.
pub open spec fn numeric(f: Fields, key: Seq<char>) -> Option<u64> {
    match block::field(f, key) {
        Some(v) => match text::read_number(v, u64::MAX as nat) {
            Some(n) => Some(n as u64),
            None => None,
        },
        None => None,
    }
}

/// A remark says something: it has a category and a text.
pub open spec fn annotation_says(a: AnnotationView) -> bool {
    text::trimmed(a.category).len() > 0 && text::trimmed(a.text).len() > 0
}

/// Remarks that an attempt may carry: at least one, and each says something.
pub open spec fn annotations_hold(a: Seq<AnnotationView>) -> bool {
    a.len() > 0 && forall|i: int| 0 <= i < a.len() ==> annotation_says(#[trigger] a[i])
}

/// The reason that follows a slash command; nothing where the text is no such command.
pub open spec fn slash_command(body: Seq<char>, command: Seq<char>) -> Option<Option<Seq<char>>> {
    match text::after_prefix(body, command) {
        Some(rest) => if rest.len() > 0 && !text::is_space(rest[0]) {
            None
        } else if text::trimmed(rest).len() > 0 {
            Some(Some(text::trimmed(rest)))
        } else {
            Some(None)
        },
        None => None,
    }
}

/// The attempt that fields describe.
pub open spec fn attempt_of(f: Fields, r: ReadingsView) -> Option<CommentView> {
    match (
        numeric(f, "thesis"@),
        block::field(f, "branch"@),
        block::field(f, "metric"@),
        r.metric,
        block::field(f, "observation"@),
        block::field(f, "summary"@),
    ) {
        (Some(thesis), Some(branch), Some(_), Some(metric), Some(word), Some(summary)) => {
            let baseline_given = optional(f, "baseline_metric"@) is Some;
            let remarks_given = optional(f, "annotations"@) is Some;
            if Observation::of_word(word) is None || (baseline_given && r.baseline_metric is None)
                || (remarks_given && (r.annotations is None || !annotations_hold(
                r.annotations->Some_0,
            ))) {
                None
            } else {
                Some(
                    CommentView::Attempt {
                        thesis,
                        branch,
                        metric,
                        baseline_metric: if baseline_given {
                            r.baseline_metric
                        } else {
                            None
                        },
                        observation: Observation::of_word(word)->Some_0,
                        summary,
                        annotations: if remarks_given {
                            r.annotations
                        } else {
                            None
                        },
                    },
                )
            }
        },
        _ => None,
    }
}

/// The review that fields describe.
pub open spec fn review_of(f: Fields, r: ReadingsView) -> Option<CommentView> {
    match (
        numeric(f, "thesis"@),
        block::field(f, "candidate_sha"@),
        block::field(f, "base_sha"@),
        block::field(f, "node"@),
        block::field(f, "metric"@),
        r.metric,
        block::field(f, "baseline_metric"@),
        r.baseline_metric,
        block::field(f, "observation"@),
        block::field(f, "timestamp"@),
    ) {
        (
            Some(thesis),
            Some(candidate_sha),
            Some(base_sha),
            Some(node),
            Some(_),
            Some(metric),
            Some(_),
            Some(baseline_metric),
            Some(word),
            Some(stamp),
        ) => match (Observation::of_word(word), time::rfc3339_reading(stamp)) {
            (Some(observation), Some((secs, nanos))) => Some(
                CommentView::Review {
                    thesis,
                    candidate_sha,
                    base_sha,
                    node,
                    metric,
                    baseline_metric,
                    observation,
                    env_sha: optional(f, "env_sha"@),
                    timestamp: Timestamp { secs, nanos },
                },
            ),
            _ => None,
        },
        _ => None,
    }
}

/// The repair note that fields describe.
pub open spec fn note_of(f: Fields) -> Option<CommentView> {
    match (block::field(f, "action"@), block::field(f, "target"@), block::field(f, "note"@)) {
        (Some(action), Some(target), Some(note)) => match optional(f, "related_comment_id"@) {
            Some(v) => match text::read_number(v, u64::MAX as nat) {
                Some(id) => Some(
                    CommentView::AdminNote {
                        action,
                        target,
                        note,
                        related_comment_id: Some(id as u64),
                    },
                ),
                None => None,
            },
            None => Some(
                CommentView::AdminNote { action, target, note, related_comment_id: None },
            ),
        },
        _ => None,
    }
}

/// The comment of a kind that fields describe.
pub open spec fn typed(
    kind: Seq<char>,
    f: Fields,
    body: Option<Seq<char>>,
    r: ReadingsView,
) -> Option<CommentView> {
    let thesis = numeric(f, "thesis"@);
    let node = block::field(f, "node"@);
    let candidate = block::field(f, "candidate_sha"@);
    if kind == "approval"@ {
        match thesis {
            Some(thesis) => Some(CommentView::Approval { thesis }),
            None => None,
        }
    } else if kind == "claim"@ {
        match (thesis, node) {
            (Some(thesis), Some(node)) => Some(CommentView::Claim { thesis, node }),
            _ => None,
        }
    } else if kind == "release"@ {
        match (thesis, node, block::field(f, "reason"@)) {
            (Some(thesis), Some(node), Some(word)) => match ReleaseReason::of_word(word) {
                Some(reason) => Some(CommentView::Release { thesis, node, reason }),
                None => None,
            },
            _ => None,
        }
    } else if kind == "attempt"@ {
        attempt_of(f, r)
    } else if kind == "annotation"@ {
        match (thesis, node) {
            (Some(thesis), Some(node)) => Some(
                CommentView::Annotation {
                    thesis,
                    node,
                    text: match body {
                        Some(b) => text::trimmed(b),
                        None => Seq::empty(),
                    },
                },
            ),
            _ => None,
        }
    } else if kind == "policy-pass"@ {
        match (thesis, candidate) {
            (Some(thesis), Some(candidate_sha)) => Some(
                CommentView::PolicyPass { thesis, candidate_sha },
            ),
            _ => None,
        }
    } else if kind == "review-claim"@ {
        match (thesis, node) {
            (Some(thesis), Some(node)) => Some(CommentView::ReviewClaim { thesis, node }),
            _ => None,
        }
    } else if kind == "review"@ {
        review_of(f, r)
    } else if kind == "decision"@ {
        match (thesis, candidate, block::field(f, "outcome"@), numeric(f, "confirmations"@)) {
            (Some(thesis), Some(candidate_sha), Some(word), Some(confirmations)) =>
            match Outcome::of_word(word) {
                Some(outcome) => Some(
                    CommentView::Decision { thesis, candidate_sha, outcome, confirmations },
                ),
                None => None,
            },
            _ => None,
        }
    } else if kind == "admin-note"@ {
        note_of(f)
    } else {
        None
    }
}

/// The comment that a text is, if it is one. A block in a quoted line is none.
pub open spec fn parsed(body: Seq<char>, r: ReadingsView) -> Option<CommentView> {
    let trimmed = text::trimmed(body);
    match slash_command(trimmed, "/approve"@) {
        Some(reason) => Some(CommentView::SlashApprove { reason }),
        None => match slash_command(trimmed, "/reject"@) {
            Some(reason) => Some(CommentView::SlashReject { reason }),
            None => match block::first_block(body, 0) {
                Some(b) => {
                    let before = body.take(b.start);
                    if block::quoted(before) {
                        None
                    } else {
                        typed(b.kind, block::fields_of(b.payload), block::visible_body(before), r)
                    }
                },
                None => None,
            },
        },
    }
}

fn parse_slash_command(body: &str, command: &str) -> (r: Option<Option<String>>)
    ensures
        match r {
            Some(reason) => slash_command(body@, command@) == Some(option_text(reason)),
            None => slash_command(body@, command@) is None,
        },
{
    match text::strip_prefix(body, command) {
        Some(rest) => {
            if rest.unicode_len() > 0 && !text::space(rest.get_char(0)) {
                return None;
            }
            let reason = text::trim(rest);
            if reason.unicode_len() > 0 {
                Some(Some(reason.to_owned()))
            } else {
                Some(None)
            }
        },
        None => None,
    }
}

fn optional_field(fields: &Vec<(String, String)>, key: &str) -> (r: Option<String>)
    ensures
        option_text(r) == optional(block::field_views(fields@), key@),
{
    match block::lookup(fields, key) {
        Some(v) => if text::same(v.as_str(), "none") {
            None
        } else {
            Some(v)
        },
        None => None,
    }
}

fn numeric_field(fields: &Vec<(String, String)>, key: &str) -> (r: Option<u64>)
    ensures
        r == numeric(block::field_views(fields@), key@),
{
    match block::lookup(fields, key) {
        Some(v) => text::parse_number(v.as_str(), u64::MAX),
        None => None,
    }
}

/// Whether remarks may be carried by an attempt: there is one, and each says something.
fn annotations_valid(a: &Vec<AttemptAnnotation>) -> (r: bool)
    ensures
        r == annotations_hold(annotation_views(a@)),
{
    if a.len() == 0 {
        return false;
    }
    let ghost all = annotation_views(a@);
    let mut i: usize = 0;
    while i < a.len()
        invariant
            i <= a.len(),
            all == annotation_views(a@),
            forall|j: int| 0 <= j < i ==> annotation_says(#[trigger] all[j]),
        decreases a.len() - i,
    {
        assert(all[i as int] == a@[i as int]@);
        if text::trim(a[i].category.as_str()).unicode_len() == 0 || text::trim(
            a[i].text.as_str(),
        ).unicode_len() == 0 {
            assert(!annotation_says(all[i as int]));
            return false;
        }
        i = i + 1;
    }
    true
}

fn parse_attempt(fields: &Vec<(String, String)>, readings: Readings) -> (r: Option<ProtocolComment>)
    ensures
        match r {
            Some(c) => attempt_of(block::field_views(fields@), readings@) == Some(c@),
            None => attempt_of(block::field_views(fields@), readings@) is None,
        },
{
    let thesis: u64 = numeric_field(fields, "thesis")?;
    let branch = block::lookup(fields, "branch")?;
    let _given = block::lookup(fields, "metric")?;
    let word = block::lookup(fields, "observation")?;
    let summary = block::lookup(fields, "summary")?;
    let observation = Observation::from_text(word.as_str())?;
    let metric = readings.metric?;
    let baseline_metric = if optional_field(fields, "baseline_metric").is_some() {
        Some(readings.baseline_metric?)
    } else {
        None
    };
    let annotations = if optional_field(fields, "annotations").is_some() {
        let given = readings.annotations?;
        if !annotations_valid(&given) {
            return None;
        }
        Some(given)
    } else {
        None
    };
    Some(
        ProtocolComment::Attempt {
            thesis,
            branch,
            metric,
            baseline_metric,
            observation,
            summary,
            annotations,
        },
    )
}

fn parse_review(fields: &Vec<(String, String)>, readings: Readings) -> (r: Option<ProtocolComment>)
    ensures
        match r {
            Some(c) => review_of(block::field_views(fields@), readings@) == Some(c@),
            None => review_of(block::field_views(fields@), readings@) is None,
        },
{
    let thesis: u64 = numeric_field(fields, "thesis")?;
    let candidate_sha = block::lookup(fields, "candidate_sha")?;
    let base_sha = block::lookup(fields, "base_sha")?;
    let node = block::lookup(fields, "node")?;
    let _given = block::lookup(fields, "metric")?;
    let _baseline_given = block::lookup(fields, "baseline_metric")?;
    let word = block::lookup(fields, "observation")?;
    let stamp = block::lookup(fields, "timestamp")?;
    let observation = Observation::from_text(word.as_str())?;
    let timestamp = time::read_rfc3339(stamp.as_str())?;
    let metric = readings.metric?;
    let baseline_metric = readings.baseline_metric?;
    let env_sha = optional_field(fields, "env_sha");
    Some(
        ProtocolComment::Review {
            thesis,
            candidate_sha,
            base_sha,
            node,
            metric,
            baseline_metric,
            observation,
            env_sha,
            timestamp,
        },
    )
}

fn parse_note(fields: &Vec<(String, String)>) -> (r: Option<ProtocolComment>)
    ensures
        match r {
            Some(c) => note_of(block::field_views(fields@)) == Some(c@),
            None => note_of(block::field_views(fields@)) is None,
        },
{
    let action = block::lookup(fields, "action")?;
    let target = block::lookup(fields, "target")?;
    let note = block::lookup(fields, "note")?;
    let related_comment_id: Option<u64> = match optional_field(fields, "related_comment_id") {
        Some(v) => Some(text::parse_number(v.as_str(), u64::MAX)?),
        None => None,
    };
    Some(ProtocolComment::AdminNote { action, target, note, related_comment_id })
}

impl ProtocolComment {
    /// Reads a comment. The texts of `literals` give the readings.
    pub fn parse(body: &str, readings: Readings) -> (r: Result<Option<Self>, String>)
        ensures
            match r {
                Ok(Some(c)) => parsed(body@, readings@) == Some(c@),
                Ok(None) => parsed(body@, readings@) is None,
                Err(_) => false,
            },
    {
        let trimmed = text::trim(body);
        match parse_slash_command(trimmed, "/approve") {
            Some(reason) => {
                return Ok(Some(ProtocolComment::SlashApprove { reason }));
            },
            None => {},
        }
        match parse_slash_command(trimmed, "/reject") {
            Some(reason) => {
                return Ok(Some(ProtocolComment::SlashReject { reason }));
            },
            None => {},
        }
        match block::find_block(body) {
            Some(found) => {
                let before = body.substring_char(0, found.start);
                assert(before@ == body@.take(found.start as int));
                if block::is_quoted(before) {
                    return Ok(None);
                }
                let fields: Vec<(String, String)> = block::parse_fields(found.payload.as_str());
                let visible = block::extract_visible_body(before);
                Ok(ProtocolComment::parse_typed(found.kind.as_str(), &fields, visible, readings))
            },
            None => Ok(None),
        }
    }

    fn parse_typed(
        kind: &str,
        fields: &Vec<(String, String)>,
        body: Option<String>,
        readings: Readings,
    ) -> (r: Option<Self>)
        ensures
            match r {
                Some(c) => typed(
                    kind@,
                    block::field_views(fields@),
                    option_text(body),
                    readings@,
                ) == Some(c@),
                None => typed(
                    kind@,
                    block::field_views(fields@),
                    option_text(body),
                    readings@,
                ) is None,
            },
    {
        if text::same(kind, "approval") {
            let thesis: u64 = numeric_field(fields, "thesis")?;
            Some(ProtocolComment::Approval { thesis })
        } else if text::same(kind, "claim") {
            let thesis: u64 = numeric_field(fields, "thesis")?;
            let node = block::lookup(fields, "node")?;
            Some(ProtocolComment::Claim { thesis, node })
        } else if text::same(kind, "release") {
            let thesis: u64 = numeric_field(fields, "thesis")?;
            let node = block::lookup(fields, "node")?;
            let word = block::lookup(fields, "reason")?;
            let reason = ReleaseReason::from_text(word.as_str())?;
            Some(ProtocolComment::Release { thesis, node, reason })
        } else if text::same(kind, "attempt") {
            parse_attempt(fields, readings)
        } else if text::same(kind, "annotation") {
            let thesis: u64 = numeric_field(fields, "thesis")?;
            let node = block::lookup(fields, "node")?;
            let text = match body {
                Some(b) => text::trim(b.as_str()).to_owned(),
                None => String::new(),
            };
            assert(body is None ==> text@ == Seq::<char>::empty());
            Some(ProtocolComment::Annotation { thesis, node, text })
        } else if text::same(kind, "policy-pass") {
            let thesis: u64 = numeric_field(fields, "thesis")?;
            let candidate_sha = block::lookup(fields, "candidate_sha")?;
            Some(ProtocolComment::PolicyPass { thesis, candidate_sha })
        } else if text::same(kind, "review-claim") {
            let thesis: u64 = numeric_field(fields, "thesis")?;
            let node = block::lookup(fields, "node")?;
            Some(ProtocolComment::ReviewClaim { thesis, node })
        } else if text::same(kind, "review") {
            parse_review(fields, readings)
        } else if text::same(kind, "decision") {
            let thesis: u64 = numeric_field(fields, "thesis")?;
            let candidate_sha = block::lookup(fields, "candidate_sha")?;
            let word = block::lookup(fields, "outcome")?;
            let outcome = Outcome::from_text(word.as_str())?;
            let confirmations: u64 = numeric_field(fields, "confirmations")?;
            Some(ProtocolComment::Decision { thesis, candidate_sha, outcome, confirmations })
        } else if text::same(kind, "admin-note") {
            parse_note(fields)
        } else {
            None
        }
    }
}

/// The text of a field of the first block in a comment.
pub open spec fn literal(body: Seq<char>, key: Seq<char>) -> Option<Seq<char>> {
    match block::first_block(body, 0) {
        Some(b) => block::field(block::fields_of(b.payload), key),
        None => None,
    }
}

/// The texts in a comment that hold numbers and JSON.
pub fn literals(body: &str) -> (r: Literals)
    ensures
        option_text(r.metric) == literal(body@, "metric"@),
        option_text(r.baseline_metric) == literal(body@, "baseline_metric"@),
        option_text(r.annotations) == literal(body@, "annotations"@),
{
    match block::find_block(body) {
        Some(found) => {
            let fields: Vec<(String, String)> = block::parse_fields(found.payload.as_str());
            Literals {
                metric: block::lookup(&fields, "metric"),
                baseline_metric: block::lookup(&fields, "baseline_metric"),
                annotations: block::lookup(&fields, "annotations"),
            }
        },
        None => Literals { metric: None, baseline_metric: None, annotations: None },
    }
}

/// The first remark that says nothing.
pub open spec fn first_silent(a: Seq<AnnotationView>, i: int) -> Option<int>
    decreases a.len() - i,
{
    if i >= a.len() {
        None
    } else if !annotation_says(a[i]) {
        Some(i)
    } else {
        first_silent(a, i + 1)
    }
}

/// Why remarks are refused; nothing where they are not.
pub open spec fn annotations_error(a: Seq<AnnotationView>) -> Option<Seq<char>> {
    if a.len() == 0 {
        Some("attempt annotations must be a non-empty JSON array when provided"@)
    } else {
        match first_silent(a, 0) {
            Some(i) => Some(
                "attempt annotation #"@ + text::decimal(i as nat) + (if text::trimmed(
                    a[i].category,
                ).len() == 0 {
                    " has an empty `category`"@
                } else {
                    " has an empty `text`"@
                }),
            ),
            None => None,
        }
    }
}

/// Checks the remarks that were decoded from JSON, or hands on why they did not decode.
pub fn parse_attempt_annotations(decoded: Result<Vec<AttemptAnnotation>, String>) -> (r: Result<
    Vec<AttemptAnnotation>,
    String,
>)
    ensures
        match decoded {
            Err(e) => r matches Err(m) && m@ == "invalid attempt annotations JSON: "@ + e@,
            Ok(a) => match annotations_error(annotation_views(a@)) {
                Some(e) => r matches Err(m) && m@ == e,
                None => r == Ok::<Vec<AttemptAnnotation>, String>(a),
            },
        },
{
    match decoded {
        Err(e) => {
            let mut m = "invalid attempt annotations JSON: ".to_owned();
            m.append(e.as_str());
            Err(m)
        },
        Ok(a) => {
            let ghost all = annotation_views(a@);
            if a.len() == 0 {
                return Err(
                    "attempt annotations must be a non-empty JSON array when provided".to_owned(),
                );
            }
            let mut i: usize = 0;
            while i < a.len()
                invariant
                    i <= a.len(),
                    all == annotation_views(a@),
                    decoded == Ok::<Vec<AttemptAnnotation>, String>(a),
                    first_silent(all, 0) == first_silent(all, i as int),
                decreases a.len() - i,
            {
                assert(all[i as int] == a@[i as int]@);
                let no_category = text::trim(a[i].category.as_str()).unicode_len() == 0;
                let no_text = text::trim(a[i].text.as_str()).unicode_len() == 0;
                if no_category || no_text {
                    let mut m = "attempt annotation #".to_owned();
                    m.append(text::number(i as u64).as_str());
                    if no_category {
                        m.append(" has an empty `category`");
                    } else {
                        m.append(" has an empty `text`");
                    }
                    return Err(m);
                }
                i = i + 1;
            }
            Ok(a)
        },
    }
}

/// Remarks are refused exactly where an attempt may not carry them.
pub proof fn annotations_refused_iff_invalid(a: Seq<AnnotationView>)
    ensures
        annotations_error(a) is None <==> annotations_hold(a),
{
    lemma_first_silent(a, 0);
}

proof fn lemma_first_silent(a: Seq<AnnotationView>, i: int)
    requires
        0 <= i,
    ensures
        first_silent(a, i) is None <==> forall|j: int| i <= j < a.len() ==> annotation_says(#[trigger] a[j]),
    decreases a.len() - i,
{
    if i < a.len() {
        if annotation_says(a[i]) {
            lemma_first_silent(a, i + 1);
            if first_silent(a, i) is None {
                assert forall|j: int| i <= j < a.len() implies annotation_says(#[trigger] a[j]) by {
                    if j > i {
                    }
                }
            }
        }
    }
}

/// A remark in JSON.
pub open spec fn annotation_json(a: AnnotationView) -> Seq<char> {
    let start = "{\"category\":"@ + json::string_json(a.category);
    let middle = match a.task_id {
        Some(id) => start + ",\"task_id\":"@ + json::string_json(id),
        None => start,
    };
    middle + ",\"text\":"@ + json::string_json(a.text) + "}"@
}

/// Remarks in JSON.
pub open spec fn annotations_json(a: Seq<AnnotationView>) -> Seq<char> {
    "["@ + text::joined(a.map_values(|x: AnnotationView| annotation_json(x)), ","@) + "]"@
}

fn write_annotations(a: &Vec<AttemptAnnotation>) -> (r: String)
    ensures
        r@ == annotations_json(annotation_views(a@)),
{
    let ghost all = annotation_views(a@);
    let ghost items = all.map_values(|x: AnnotationView| annotation_json(x));
    let mut parts: Vec<String> = Vec::new();
    let mut i: usize = 0;
    while i < a.len()
        invariant
            i <= a.len(),
            all == annotation_views(a@),
            items == all.map_values(|x: AnnotationView| annotation_json(x)),
            text::texts(parts@) == items.take(i as int),
        decreases a.len() - i,
    {
        let mut item = "{\"category\":".to_owned();
        item.append(json::write_string(a[i].category.as_str()).as_str());
        match &a[i].task_id {
            Some(id) => {
                item.append(",\"task_id\":");
                item.append(json::write_string(id.as_str()).as_str());
            },
            None => {},
        }
        item.append(",\"text\":");
        item.append(json::write_string(a[i].text.as_str()).as_str());
        item.append("}");
        let ghost before = parts@;
        proof {
            assert(all[i as int] == a@[i as int]@);
            assert(items[i as int] == annotation_json(all[i as int]));
            assert(item@ == items[i as int]);
            text::lemma_texts_push(before, item);
            assert(items.take(i + 1) == items.take(i as int).push(items[i as int]));
        }
        parts.push(item);
        i = i + 1;
    }
    assert(items.take(i as int) == items);
    let mut r = "[".to_owned();
    r.append(text::join(&parts, ",").as_str());
    r.append("]");
    r
}

/// A text on one line: each line break becomes a blank.
pub open spec fn flat(s: Seq<char>) -> Seq<char> {
    s.map_values(
        |c: char|
            if c == '\n' {
                ' '
            } else {
                c
            },
    )
}

/// The line that shows a remark.
pub open spec fn remark_line(a: AnnotationView) -> Seq<char> {
    match a.task_id {
        Some(id) => "- ["@ + a.category + "] task `"@ + id + "`: "@ + flat(a.text) + "\n"@,
        None => "- ["@ + a.category + "]: "@ + flat(a.text) + "\n"@,
    }
}

/// The lines that show remarks.
pub open spec fn remark_lines(a: Seq<AnnotationView>) -> Seq<char>
    decreases a.len(),
{
    if a.len() == 0 {
        "Annotations:\n"@
    } else {
        remark_lines(a.drop_last()) + remark_line(a.last())
    }
}

/// The readable list of remarks.
pub open spec fn remarks(a: Seq<AnnotationView>) -> Seq<char> {
    text::trimmed_end(remark_lines(a))
}

fn flatten(s: &str) -> (r: String)
    ensures
        r@ == flat(s@),
{
    let v: Vec<char> = text::chars_of(s);
    let mut r = String::new();
    let mut i: usize = 0;
    while i < v.len()
        invariant
            i <= v.len(),
            v@ == s@,
            r@ == flat(s@).take(i as int),
        decreases v.len() - i,
    {
        let c: char = if v[i] == '\n' {
            ' '
        } else {
            v[i]
        };
        r.push(c);
        assert(flat(s@).take(i + 1) == flat(s@).take(i as int).push(flat(s@)[i as int]));
        i = i + 1;
    }
    assert(flat(s@).take(i as int) == flat(s@));
    r
}

fn render_attempt_annotations(a: &Vec<AttemptAnnotation>) -> (r: String)
    ensures
        r@ == remarks(annotation_views(a@)),
{
    let ghost all = annotation_views(a@);
    let mut r = "Annotations:\n".to_owned();
    let mut i: usize = 0;
    assert(all.take(0).len() == 0);
    while i < a.len()
        invariant
            i <= a.len(),
            all == annotation_views(a@),
            r@ == remark_lines(all.take(i as int)),
        decreases a.len() - i,
    {
        let mut line = "- [".to_owned();
        line.append(a[i].category.as_str());
        match &a[i].task_id {
            Some(id) => {
                line.append("] task `");
                line.append(id.as_str());
                line.append("`: ");
            },
            None => {
                line.append("]: ");
            },
        }
        line.append(flatten(a[i].text.as_str()).as_str());
        line.append("\n");
        proof {
            assert(all.take(i + 1).drop_last() == all.take(i as int));
            assert(all.take(i + 1).last() == a@[i as int]@);
        }
        r.append(line.as_str());
        i = i + 1;
    }
    assert(all.take(i as int) == all);
    text::trim_end(r.as_str()).to_owned()
}

impl CommentView {
    /// The readable first line of the comment.
    pub open spec fn summary_line(self) -> Seq<char> {
        match self {
            CommentView::SlashApprove { .. } => Seq::empty(),
            CommentView::SlashReject { .. } => Seq::empty(),
            CommentView::Approval { thesis } => "Polyresearch approval: thesis #"@ + text::decimal(
                thesis as nat,
            ) + "."@,
            CommentView::Claim { thesis, node } => "Polyresearch claim: thesis #"@ + text::decimal(
                thesis as nat,
            ) + " by node `"@ + node + "`."@,
            CommentView::Release { thesis, node, reason } => "Polyresearch release: thesis #"@
                + text::decimal(thesis as nat) + " by node `"@ + node + "` (`reason: "@
                + reason.word() + "`)."@,
            CommentView::Attempt { thesis, branch, metric, observation, .. } =>
            "Polyresearch attempt: thesis #"@ + text::decimal(thesis as nat) + ", branch `"@
                + branch + "`, metric `"@ + metric.text + "`, observation `"@ + observation.word()
                + "`."@,
            CommentView::Annotation { thesis, node, .. } => "Polyresearch annotation: thesis #"@
                + text::decimal(thesis as nat) + " by node `"@ + node + "`."@,
            CommentView::PolicyPass { thesis, candidate_sha } =>
            "Polyresearch policy pass: thesis #"@ + text::decimal(thesis as nat)
                + ", candidate `"@ + candidate_sha + "`."@,
            CommentView::ReviewClaim { thesis, node } => "Polyresearch review claim: thesis #"@
                + text::decimal(thesis as nat) + " by node `"@ + node + "`."@,
            CommentView::Review { thesis, node, metric, baseline_metric, observation, .. } =>
            "Polyresearch review: thesis #"@ + text::decimal(thesis as nat) + " by node `"@ + node
                + "`, candidate `"@ + metric.text + "`, baseline `"@ + baseline_metric.text
                + "`, observation `"@ + observation.word() + "`."@,
            CommentView::Decision { thesis, candidate_sha, outcome, .. } =>
            "Polyresearch decision: thesis #"@ + text::decimal(thesis as nat) + ", candidate `"@
                + candidate_sha + "`, outcome `"@ + outcome.word() + "`."@,
            CommentView::AdminNote { note, .. } => "Polyresearch admin repair: "@ + note + "."@,
        }
    }

    /// The readable text between the first line and the block.
    pub open spec fn shown_body(self) -> Option<Seq<char>> {
        match self {
            CommentView::Attempt { annotations: Some(a), .. } => Some(remarks(a)),
            CommentView::Annotation { text, .. } => Some(text),
            _ => None,
        }
    }

    /// The name of the kind of the comment.
    pub open spec fn kind(self) -> Seq<char> {
        match self {
            CommentView::SlashApprove { .. } => "/approve"@,
            CommentView::SlashReject { .. } => "/reject"@,
            CommentView::Approval { .. } => "approval"@,
            CommentView::Claim { .. } => "claim"@,
            CommentView::Release { .. } => "release"@,
            CommentView::Attempt { .. } => "attempt"@,
            CommentView::Annotation { .. } => "annotation"@,
            CommentView::PolicyPass { .. } => "policy-pass"@,
            CommentView::ReviewClaim { .. } => "review-claim"@,
            CommentView::Review { .. } => "review"@,
            CommentView::Decision { .. } => "decision"@,
            CommentView::AdminNote { .. } => "admin-note"@,
        }
    }

    /// The fields of the comment.
    pub open spec fn fields(self) -> Fields {
        match self {
            CommentView::SlashApprove { .. } => Seq::empty(),
            CommentView::SlashReject { .. } => Seq::empty(),
            CommentView::Approval { thesis } => seq![("thesis"@, text::decimal(thesis as nat))],
            CommentView::Claim { thesis, node } => seq![
                ("thesis"@, text::decimal(thesis as nat)),
                ("node"@, node),
            ],
            CommentView::Release { thesis, node, reason } => seq![
                ("thesis"@, text::decimal(thesis as nat)),
                ("node"@, node),
                ("reason"@, reason.word()),
            ],
            CommentView::Attempt {
                thesis,
                branch,
                metric,
                baseline_metric,
                observation,
                summary,
                annotations,
            } => {
                let first = seq![
                    ("thesis"@, text::decimal(thesis as nat)),
                    ("branch"@, branch),
                    ("metric"@, metric.text),
                ];
                let second = match baseline_metric {
                    Some(b) => first.push(("baseline_metric"@, b.text)),
                    None => first,
                };
                let third = second.push(("observation"@, observation.word())).push(
                    ("summary"@, summary),
                );
                match annotations {
                    Some(a) => third.push(("annotations"@, annotations_json(a))),
                    None => third,
                }
            },
            CommentView::Annotation { thesis, node, .. } => seq![
                ("thesis"@, text::decimal(thesis as nat)),
                ("node"@, node),
            ],
            CommentView::PolicyPass { thesis, candidate_sha } => seq![
                ("thesis"@, text::decimal(thesis as nat)),
                ("candidate_sha"@, candidate_sha),
            ],
            CommentView::ReviewClaim { thesis, node } => seq![
                ("thesis"@, text::decimal(thesis as nat)),
                ("node"@, node),
            ],
            CommentView::Review {
                thesis,
                candidate_sha,
                base_sha,
                node,
                metric,
                baseline_metric,
                observation,
                env_sha,
                timestamp,
            } => seq![
                ("thesis"@, text::decimal(thesis as nat)),
                ("candidate_sha"@, candidate_sha),
                ("base_sha"@, base_sha),
                ("node"@, node),
                ("metric"@, metric.text),
                ("baseline_metric"@, baseline_metric.text),
                ("observation"@, observation.word()),
                (
                    "env_sha"@,
                    match env_sha {
                        Some(e) => e,
                        None => "none"@,
                    },
                ),
                ("timestamp"@, time::rfc3339_text(timestamp.secs, timestamp.nanos)),
            ],
            CommentView::Decision { thesis, candidate_sha, outcome, confirmations } => seq![
                ("thesis"@, text::decimal(thesis as nat)),
                ("candidate_sha"@, candidate_sha),
                ("outcome"@, outcome.word()),
                ("confirmations"@, text::decimal(confirmations as nat)),
            ],
            CommentView::AdminNote { action, target, note, related_comment_id } => {
                let first = seq![("action"@, action), ("target"@, target), ("note"@, note)];
                match related_comment_id {
                    Some(id) => first.push(("related_comment_id"@, text::decimal(id as nat))),
                    None => first,
                }
            },
        }
    }

    /// A command with its reason.
    pub open spec fn command_text(command: Seq<char>, reason: Option<Seq<char>>) -> Seq<char> {
        match reason {
            Some(r) => command + " "@ + r,
            None => command,
        }
    }

    /// The text of the comment.
    pub open spec fn rendered(self) -> Seq<char> {
        match self {
            CommentView::SlashApprove { reason } => Self::command_text("/approve"@, reason),
            CommentView::SlashReject { reason } => Self::command_text("/reject"@, reason),
            _ => block::block_text(
                self.summary_line(),
                self.shown_body(),
                self.kind(),
                self.fields(),
            ),
        }
    }
}

fn render_slash_command(command: &str, reason: &Option<String>) -> (r: String)
    ensures
        r@ == CommentView::command_text(command@, option_text(*reason)),
{
    let mut r = command.to_owned();
    match reason {
        Some(t) => {
            r.append(" ");
            r.append(t.as_str());
        },
        None => {},
    }
    r
}

fn pair(key: &str, value: String) -> (r: (String, String))
    ensures
        r.0@ == key@,
        r.1 == value,
{
    (key.to_owned(), value)
}

fn opening(start: &str, thesis: u64) -> (r: String)
    ensures
        r@ == start@ + text::decimal(thesis as nat),
{
    let mut r = start.to_owned();
    r.append(text::number(thesis).as_str());
    r
}

fn render_attempt(
    thesis: u64,
    branch: &String,
    metric: &Metric,
    baseline_metric: &Option<Metric>,
    observation: Observation,
    summary: &String,
    annotations: &Option<Vec<AttemptAnnotation>>,
) -> (r: String)
    ensures
        r@ == (CommentView::Attempt {
            thesis,
            branch: branch@,
            metric: metric@,
            baseline_metric: option_metric(*baseline_metric),
            observation,
            summary: summary@,
            annotations: option_annotations(*annotations),
        }).rendered(),
{
    let ghost c = CommentView::Attempt {
        thesis,
        branch: branch@,
        metric: metric@,
        baseline_metric: option_metric(*baseline_metric),
        observation,
        summary: summary@,
        annotations: option_annotations(*annotations),
    };
    let mut line = opening("Polyresearch attempt: thesis #", thesis);
    line.append(", branch `");
    line.append(branch.as_str());
    line.append("`, metric `");
    line.append(metric.text.as_str());
    line.append("`, observation `");
    line.append(observation.text().as_str());
    line.append("`.");
    let mut fields: Vec<(String, String)> = vec![
        pair("thesis", text::number(thesis)),
        pair("branch", branch.clone()),
        pair("metric", metric.text.clone()),
    ];
    match baseline_metric {
        Some(b) => {
            fields.push(pair("baseline_metric", b.text.clone()));
        },
        None => {},
    }
    fields.push(pair("observation", observation.text()));
    fields.push(pair("summary", summary.clone()));
    let mut body: Option<String> = None;
    match annotations {
        Some(a) => {
            fields.push(pair("annotations", write_annotations(a)));
            body = Some(render_attempt_annotations(a));
        },
        None => {},
    }
    assert(block::field_views(fields@) =~= c.fields());
    block::render_block(line.as_str(), body, "attempt", &fields)
}

fn render_review(
    thesis: u64,
    candidate_sha: &String,
    base_sha: &String,
    node: &String,
    metric: &Metric,
    baseline_metric: &Metric,
    observation: Observation,
    env_sha: &Option<String>,
    timestamp: &Timestamp,
) -> (r: String)
    requires
        timestamp.on_calendar(),
    ensures
        r@ == (CommentView::Review {
            thesis,
            candidate_sha: candidate_sha@,
            base_sha: base_sha@,
            node: node@,
            metric: metric@,
            baseline_metric: baseline_metric@,
            observation,
            env_sha: option_text(*env_sha),
            timestamp: *timestamp,
        }).rendered(),
        (CommentView::Review {
            thesis,
            candidate_sha: candidate_sha@,
            base_sha: base_sha@,
            node: node@,
            metric: metric@,
            baseline_metric: baseline_metric@,
            observation,
            env_sha: option_text(*env_sha),
            timestamp: *timestamp,
        }).stamped(),
{
    let ghost c = CommentView::Review {
        thesis,
        candidate_sha: candidate_sha@,
        base_sha: base_sha@,
        node: node@,
        metric: metric@,
        baseline_metric: baseline_metric@,
        observation,
        env_sha: option_text(*env_sha),
        timestamp: *timestamp,
    };
    let mut line = opening("Polyresearch review: thesis #", thesis);
    line.append(" by node `");
    line.append(node.as_str());
    line.append("`, candidate `");
    line.append(metric.text.as_str());
    line.append("`, baseline `");
    line.append(baseline_metric.text.as_str());
    line.append("`, observation `");
    line.append(observation.text().as_str());
    line.append("`.");
    let env = match env_sha {
        Some(e) => e.clone(),
        None => "none".to_owned(),
    };
    let fields: Vec<(String, String)> = vec![
        pair("thesis", text::number(thesis)),
        pair("candidate_sha", candidate_sha.clone()),
        pair("base_sha", base_sha.clone()),
        pair("node", node.clone()),
        pair("metric", metric.text.clone()),
        pair("baseline_metric", baseline_metric.text.clone()),
        pair("observation", observation.text()),
        pair("env_sha", env),
        pair("timestamp", time::write_rfc3339(timestamp)),
    ];
    assert(block::field_views(fields@) =~= c.fields());
    block::render_block(line.as_str(), None, "review", &fields)
}

fn render_note(
    action: &String,
    target: &String,
    note: &String,
    related_comment_id: Option<u64>,
) -> (r: String)
    ensures
        r@ == (CommentView::AdminNote {
            action: action@,
            target: target@,
            note: note@,
            related_comment_id,
        }).rendered(),
{
    let ghost c = CommentView::AdminNote {
        action: action@,
        target: target@,
        note: note@,
        related_comment_id,
    };
    let mut line = "Polyresearch admin repair: ".to_owned();
    line.append(note.as_str());
    line.append(".");
    let mut fields: Vec<(String, String)> = vec![
        pair("action", action.clone()),
        pair("target", target.clone()),
        pair("note", note.clone()),
    ];
    match related_comment_id {
        Some(id) => {
            fields.push(pair("related_comment_id", text::number(id)));
        },
        None => {},
    }
    assert(block::field_views(fields@) =~= c.fields());
    block::render_block(line.as_str(), None, "admin-note", &fields)
}

fn render_by_node(
    start: &str,
    thesis: u64,
    node: &String,
    body: Option<String>,
    kind: &str,
) -> (r: String)
    ensures
        r@ == block::block_text(
            start@ + text::decimal(thesis as nat) + " by node `"@ + node@ + "`."@,
            option_text(body),
            kind@,
            seq![("thesis"@, text::decimal(thesis as nat)), ("node"@, node@)],
        ),
{
    let mut line = opening(start, thesis);
    line.append(" by node `");
    line.append(node.as_str());
    line.append("`.");
    let fields: Vec<(String, String)> = vec![
        pair("thesis", text::number(thesis)),
        pair("node", node.clone()),
    ];
    assert(block::field_views(fields@) =~= seq![
        ("thesis"@, text::decimal(thesis as nat)),
        ("node"@, node@),
    ]);
    block::render_block(line.as_str(), body, kind, &fields)
}

impl ProtocolComment {
    /// A review carries a timestamp that the calendar knows.
    pub open spec fn dated(&self) -> bool {
        match *self {
            ProtocolComment::Review { timestamp, .. } => timestamp.on_calendar(),
            _ => true,
        }
    }

    /// The text of the comment. Where the comment is legible, reading the text gives the comment
    /// back, with its numbers and remarks as they were read.
    pub fn render(&self) -> (r: String)
        requires
            self.dated(),
        ensures
            r@ == self@.rendered(),
            forall|readings: ReadingsView|
                self@.legible() && self@.answered(readings) ==> #[trigger] parsed(r@, readings)
                    == Some(self@.with_readings(readings)),
            self@.legible() ==> self@.literals_in(r@),
    {
        let r = self.written();
        proof {
            let c = self@;
            if c.legible() && (c is Attempt || c is Review) {
                read_back::rendered_shows_literals(c);
            }
            assert forall|readings: ReadingsView|
                c.legible() && c.answered(readings) implies #[trigger] parsed(r@, readings) == Some(
                c.with_readings(readings),
            ) by {
                read_back::rendered_reads_back(c, readings);
            }
        }
        r
    }

    fn written(&self) -> (r: String)
        requires
            self.dated(),
        ensures
            r@ == self@.rendered(),
            self@.stamped(),
    {
        match self {
            ProtocolComment::SlashApprove { reason } => render_slash_command("/approve", reason),
            ProtocolComment::SlashReject { reason } => render_slash_command("/reject", reason),
            ProtocolComment::Approval { thesis } => {
                let mut line = opening("Polyresearch approval: thesis #", *thesis);
                line.append(".");
                let fields: Vec<(String, String)> = vec![pair("thesis", text::number(*thesis))];
                assert(block::field_views(fields@) =~= self@.fields());
                block::render_block(line.as_str(), None, "approval", &fields)
            },
            ProtocolComment::Claim { thesis, node } => render_by_node(
                "Polyresearch claim: thesis #",
                *thesis,
                node,
                None,
                "claim",
            ),
            ProtocolComment::Release { thesis, node, reason } => {
                let mut line = opening("Polyresearch release: thesis #", *thesis);
                line.append(" by node `");
                line.append(node.as_str());
                line.append("` (`reason: ");
                line.append(reason.text().as_str());
                line.append("`).");
                let fields: Vec<(String, String)> = vec![
                    pair("thesis", text::number(*thesis)),
                    pair("node", node.clone()),
                    pair("reason", reason.text()),
                ];
                assert(block::field_views(fields@) =~= self@.fields());
                block::render_block(line.as_str(), None, "release", &fields)
            },
            ProtocolComment::Attempt {
                thesis,
                branch,
                metric,
                baseline_metric,
                observation,
                summary,
                annotations,
            } => render_attempt(
                *thesis,
                branch,
                metric,
                baseline_metric,
                *observation,
                summary,
                annotations,
            ),
            ProtocolComment::Annotation { thesis, node, text } => render_by_node(
                "Polyresearch annotation: thesis #",
                *thesis,
                node,
                Some(text.clone()),
                "annotation",
            ),
            ProtocolComment::PolicyPass { thesis, candidate_sha } => {
                let mut line = opening("Polyresearch policy pass: thesis #", *thesis);
                line.append(", candidate `");
                line.append(candidate_sha.as_str());
                line.append("`.");
                let fields: Vec<(String, String)> = vec![
                    pair("thesis", text::number(*thesis)),
                    pair("candidate_sha", candidate_sha.clone()),
                ];
                assert(block::field_views(fields@) =~= self@.fields());
                block::render_block(line.as_str(), None, "policy-pass", &fields)
            },
            ProtocolComment::ReviewClaim { thesis, node } => render_by_node(
                "Polyresearch review claim: thesis #",
                *thesis,
                node,
                None,
                "review-claim",
            ),
            ProtocolComment::Review {
                thesis,
                candidate_sha,
                base_sha,
                node,
                metric,
                baseline_metric,
                observation,
                env_sha,
                timestamp,
            } => render_review(
                *thesis,
                candidate_sha,
                base_sha,
                node,
                metric,
                baseline_metric,
                *observation,
                env_sha,
                timestamp,
            ),
            ProtocolComment::Decision { thesis, candidate_sha, outcome, confirmations } => {
                let mut line = opening("Polyresearch decision: thesis #", *thesis);
                line.append(", candidate `");
                line.append(candidate_sha.as_str());
                line.append("`, outcome `");
                line.append(outcome.text().as_str());
                line.append("`.");
                let fields: Vec<(String, String)> = vec![
                    pair("thesis", text::number(*thesis)),
                    pair("candidate_sha", candidate_sha.clone()),
                    pair("outcome", outcome.text()),
                    pair("confirmations", text::number(*confirmations)),
                ];
                assert(block::field_views(fields@) =~= self@.fields());
                block::render_block(line.as_str(), None, "decision", &fields)
            },
            ProtocolComment::AdminNote { action, target, note, related_comment_id } => render_note(
                action,
                target,
                note,
                *related_comment_id,
            ),
        }
    }

    /// The remarks that an attempt carries.
    pub fn attempt_annotations(&self) -> (r: Option<&Vec<AttemptAnnotation>>)
        ensures
            match *self {
                ProtocolComment::Attempt { annotations: Some(a), .. } => r == Some(&a),
                _ => r is None,
            },
    {
        match self {
            ProtocolComment::Attempt { annotations: Some(a), .. } => Some(a),
            _ => None,
        }
    }
}

} // verus!
