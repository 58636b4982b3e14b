//! What the command line gives.
use crate::comments::{Observation, ReleaseReason};
use crate::metric::Metric;
use vstd::prelude::*;

verus! {

/// Values of a node's configuration that the command line replaces.
#[derive(Debug, Default)]
pub struct NodeOverrides {
    pub capacity: Option<u8>,
    pub api_budget: Option<u64>,
    pub request_delay: Option<u64>,
    pub agent_command: Option<String>,
    pub agent_timeout: Option<u64>,
}

/// What `init` is given.
#[derive(Debug)]
pub struct InitArgs {
    pub node: Option<String>,
    pub overrides: NodeOverrides,
}

/// What `status` is given.
#[derive(Clone, Copy, Debug)]
pub struct StatusArgs {
    pub tui: bool,
}

/// What a command on a thesis is given.
#[derive(Clone, Copy, Debug)]
pub struct IssueArgs {
    pub issue: u64,
}

/// What `batch-claim` is given.
#[derive(Clone, Copy, Debug)]
pub struct BatchClaimArgs {
    pub count: Option<usize>,
}

/// What a command on a candidate is given.
#[derive(Clone, Copy, Debug)]
pub struct PrArgs {
    pub pr: u64,
}

/// What `attempt` is given.
#[derive(Debug)]
pub struct AttemptArgs {
    pub issue: u64,
    pub metric: Metric,
    pub baseline: Metric,
    pub observation: Observation,
    pub summary: String,
    /// Remarks, as JSON.
    pub annotations: Option<String>,
}

/// What `annotate` is given.
#[derive(Debug)]
pub struct AnnotateArgs {
    pub issue: u64,
    pub text: String,
}

/// What `release` is given.
#[derive(Clone, Copy, Debug)]
pub struct ReleaseArgs {
    pub issue: u64,
    pub reason: ReleaseReason,
}

/// What `review` is given.
#[derive(Debug)]
pub struct ReviewArgs {
    pub pr: u64,
    pub metric: Metric,
    pub baseline: Metric,
    pub observation: Observation,
}

/// What `generate` is given.
#[derive(Debug)]
pub struct GenerateArgs {
    pub title: String,
    pub body: String,
}

/// What `admin` is given.
#[derive(Debug)]
pub struct AdminArgs {
    pub command: AdminCommands,
}

/// The repairs that the lead can make.
#[derive(Debug)]
pub enum AdminCommands {
    ReleaseClaim(AdminReleaseClaimArgs),
    AcknowledgeInvalid(AdminAcknowledgeInvalidArgs),
    ReopenThesis(AdminReopenThesisArgs),
    ReconcileLedger,
}

/// What the release of another node's claim is given.
#[derive(Debug)]
pub struct AdminReleaseClaimArgs {
    pub issue: u64,
    pub node: String,
    pub reason: ReleaseReason,
    pub note: String,
}

/// What the acknowledgement of a finding is given.
#[derive(Debug)]
pub struct AdminAcknowledgeInvalidArgs {
    pub comment_id: u64,
    pub note: String,
}

/// What the reopening of a thesis is given.
#[derive(Debug)]
pub struct AdminReopenThesisArgs {
    pub issue: u64,
    pub note: String,
}

} // verus!
