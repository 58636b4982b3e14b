//! Records the review of a candidate.
use crate::cli::ReviewArgs;
use crate::comments;
use crate::comments::{CommentView, ProtocolComment};
use crate::json;
use crate::sort;
use crate::sort::Ranked;
use crate::state::{PullRequestState, ThesisState};
use crate::text;
use crate::text_set;
use crate::time::Timestamp;
use vstd::prelude::*;
use vstd::string::*;
use vstd::utf8;

verus! {

/// A review that was recorded.
#[derive(Debug)]
pub struct ReviewOutput {
    pub pr: u64,
    pub issue: u64,
    pub node: String,
    pub candidate_sha: String,
    pub base_sha: String,
    pub env_sha: Option<String>,
}

/// The commit that a review is of, or why there is none.
pub fn reviewed_sha(pr_state: &PullRequestState, pr: u64) -> (r: Result<String, String>)
    ensures
        match pr_state.pr.head_ref_oid {
            Some(sha) => r == Ok::<String, String>(sha),
            None => r matches Err(e) && e@ == "PR #"@ + text::decimal(pr as nat)
                + " does not expose a head SHA"@,
        },
{
    match &pr_state.pr.head_ref_oid {
        Some(sha) => Ok(sha.clone()),
        None => Err(text::say("PR #", pr, " does not expose a head SHA")),
    }
}

/// The comment that records a review, and what is told of it.
pub fn record(
    thesis: &ThesisState,
    args: &ReviewArgs,
    node: &str,
    candidate_sha: &str,
    base_sha: &str,
    env_sha: &Option<String>,
    now: Timestamp,
) -> (r: (ProtocolComment, ReviewOutput))
    ensures
        r.0@ == (CommentView::Review {
            thesis: thesis.issue.number,
            candidate_sha: candidate_sha@,
            base_sha: base_sha@,
            node: node@,
            metric: args.metric@,
            baseline_metric: args.baseline@,
            observation: args.observation,
            env_sha: comments::option_text(*env_sha),
            timestamp: now,
        }),
        r.1.pr == args.pr,
        r.1.issue == thesis.issue.number,
        r.1.node@ == node@,
        r.1.candidate_sha@ == candidate_sha@,
        r.1.base_sha@ == base_sha@,
        r.1.env_sha == *env_sha,
{
    let comment = ProtocolComment::Review {
        thesis: thesis.issue.number,
        candidate_sha: candidate_sha.to_owned(),
        base_sha: base_sha.to_owned(),
        node: node.to_owned(),
        metric: args.metric.clone(),
        baseline_metric: args.baseline.clone(),
        observation: args.observation,
        env_sha: text::copy(env_sha),
        timestamp: now,
    };
    let output = ReviewOutput {
        pr: args.pr,
        issue: thesis.issue.number,
        node: node.to_owned(),
        candidate_sha: candidate_sha.to_owned(),
        base_sha: base_sha.to_owned(),
        env_sha: text::copy(env_sha),
    };
    (comment, output)
}

impl ReviewOutput {
    /// The output as it is shown.
    pub fn text(&self) -> (r: String)
        ensures
            r@ == "Recorded review for PR #"@ + text::decimal(self.pr as nat) + " on thesis #"@
                + text::decimal(self.issue as nat) + " (candidate "@ + self.candidate_sha@
                + ", base "@ + self.base_sha@ + ")."@,
    {
        let mut r = text::say("Recorded review for PR #", self.pr, " on thesis #");
        r.append(text::number(self.issue).as_str());
        r.append(" (candidate ");
        r.append(self.candidate_sha.as_str());
        r.append(", base ");
        r.append(self.base_sha.as_str());
        r.append(").");
        r
    }
}

/// The SHA-256 digest of bytes.
pub uninterp spec fn sha256_digest(data: Seq<u8>) -> Seq<u8>;

/// The SHA-256 digest of bytes, by `sha2::Digest::digest` of `sha2::Sha256`. It has 32 bytes.
#[verifier::external_body]
fn sha256(data: &Vec<u8>) -> (r: Vec<u8>)
    ensures
        r@ == sha256_digest(data@),
        r@.len() == 32,
{
    let digest = <sha2::Sha256 as sha2::Digest>::digest(data.as_slice());
    digest.to_vec()
}

/// A file: its path, and what it holds.
#[derive(Debug)]
pub struct FileEntry {
    pub path: String,
    pub contents: Vec<u8>,
}

/// The bytes that stand for files: of each its path and its contents, one after the other.
pub open spec fn bytes_of(files: Seq<FileEntry>) -> Seq<u8>
    decreases files.len(),
{
    if files.len() == 0 {
        Seq::empty()
    } else {
        bytes_of(files.drop_last()) + utf8::encode_utf8(files.last().path@)
            + files.last().contents@
    }
}

/// Bytes as two digits each, to the base of sixteen.
pub open spec fn hex_of(bytes: Seq<u8>) -> Seq<char>
    decreases bytes.len(),
{
    if bytes.len() == 0 {
        Seq::empty()
    } else {
        let b = bytes.last();
        hex_of(bytes.drop_last()).push(json::hex_digit((b / 16) as nat)).push(
            json::hex_digit((b % 16) as nat),
        )
    }
}

fn hex_char(n: u8) -> (r: char)
    requires
        n < 16,
    ensures
        r == json::hex_digit(n as nat),
{
    let code: u8 = if n < 10 {
        48 + n
    } else {
        87 + n
    };
    code as char
}

/// Bytes as two digits each, to the base of sixteen.
pub fn to_hex(bytes: &Vec<u8>) -> (r: String)
    ensures
        r@ == hex_of(bytes@),
        r@.len() == 2 * bytes@.len(),
{
    let mut r = String::new();
    let mut i: usize = 0;
    assert(bytes@.take(0).len() == 0);
    while i < bytes.len()
        invariant
            i <= bytes.len(),
            r@ == hex_of(bytes@.take(i as int)),
            r@.len() == 2 * i,
        decreases bytes.len() - i,
    {
        proof {
            assert(bytes@.take(i + 1).drop_last() =~= bytes@.take(i as int));
            assert(bytes@.take(i + 1).last() == bytes@[i as int]);
        }
        r.push(hex_char(bytes[i] / 16));
        r.push(hex_char(bytes[i] % 16));
        i = i + 1;
    }
    assert(bytes@.take(i as int) =~= bytes@);
    r
}

/// A path with the slashes that part it made smaller than all characters of a name.
pub open spec fn path_key(path: Seq<char>) -> Seq<char> {
    path.map_values(|c: char| if c == '/' { '\0' } else { c })
}

fn key_of(path: &str) -> (r: String)
    ensures
        r@ == path_key(path@),
{
    let v: Vec<char> = text::chars_of(path);
    let mut r = String::new();
    let mut i: usize = 0;
    while i < v.len()
        invariant
            i <= v.len(),
            v@ == path@,
            r@ =~= path_key(path@).take(i as int),
        decreases v.len() - i,
    {
        r.push(
            if v[i] == '/' {
                '\0'
            } else {
                v[i]
            },
        );
        assert(path_key(path@).take(i + 1) =~= path_key(path@).take(i as int).push(
            path_key(path@)[i as int],
        ));
        i = i + 1;
    }
    assert(path_key(path@).take(i as int) =~= path_key(path@));
    r
}

/// Paths are ordered part by part: what stands in a directory comes before what stands beside it
/// under a longer name.
impl Ranked for FileEntry {
    open spec fn after(self, other: Self) -> bool {
        text_set::precedes(path_key(other.path@), path_key(self.path@))
    }

    proof fn one_way(a: Self, b: Self) {
        text_set::lemma_precedes_total(path_key(a.path@), path_key(b.path@));
    }

    proof fn carries_over(a: Self, b: Self, c: Self) {
        let (x, y, z) = (path_key(a.path@), path_key(b.path@), path_key(c.path@));
        text_set::lemma_precedes_total(x, y);
        text_set::lemma_precedes_total(y, z);
        text_set::lemma_precedes_total(x, z);
        if text_set::precedes(z, x) {
            if text_set::precedes(x, y) {
                text_set::lemma_precedes_transitive(z, x, y);
            }
        }
    }

    fn is_after(&self, other: &Self) -> (r: bool) {
        text_set::before(key_of(other.path.as_str()).as_str(), key_of(self.path.as_str()).as_str())
    }
}

/// The digest that stands for an environment: that of its files, in the order of their paths.
pub fn compute_env_sha(found: Vec<FileEntry>) -> (r: String)
    ensures
        r@ == hex_of(sha256_digest(bytes_of(sort::sorted(found@)))),
        r@.len() == 64,
{
    let files: Vec<FileEntry> = sort::sort(found);
    let mut data: Vec<u8> = Vec::new();
    let mut i: usize = 0;
    assert(files@.take(0).len() == 0);
    while i < files.len()
        invariant
            i <= files.len(),
            data@ == bytes_of(files@.take(i as int)),
        decreases files.len() - i,
    {
        proof {
            assert(files@.take(i + 1).drop_last() =~= files@.take(i as int));
            assert(files@.take(i + 1).last() == files@[i as int]);
        }
        data.extend_from_slice(files[i].path.as_str().as_bytes());
        data.extend_from_slice(files[i].contents.as_slice());
        assert(data@ =~= bytes_of(files@.take(i + 1)));
        i = i + 1;
    }
    assert(files@.take(i as int) =~= files@);
    to_hex(&sha256(&data))
}

} // verus!
