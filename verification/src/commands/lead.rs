//! The lead: runs the lead's agent until the queue is filled, and decides what is ready.
use crate::commands::decide;
use crate::comments;
use crate::comments::{CommentView, Outcome, ProtocolComment};
use crate::config;
use crate::config::{NodeConfig, ProtocolConfig};
use crate::ledger::Ledger;
use crate::state::{PullRequestState, RepositoryState, ThesisState};
use crate::text;
use vstd::prelude::*;
use vstd::string::*;

verus! {

/// The command that starts an agent: the node's, else the one given on the command line, else the
/// program with the usual flags.
pub fn agent_command(
    node: &Option<NodeConfig>,
    given: &Option<String>,
    program: &str,
) -> (r: String)
    ensures
        r@ == (match *node {
            Some(c) => c.agent.command@,
            None => match *given {
                Some(t) => t@,
                None => program@ + config::DEFAULT_AGENT_FLAGS@,
            },
        }),
{
    match node {
        Some(c) => c.agent.command.clone(),
        None => match given {
            Some(t) => t.clone(),
            None => config::default_agent_command(program),
        },
    }
}

/// What the lead does next.
#[derive(Debug)]
pub enum LeadAction {
    /// Run the lead's agent.
    RunAgent,
    /// Read the state of the project after the agent.
    ReadState,
    /// Decide the candidates that are ready.
    Sweep,
    /// Read the state again for the length of the queue.
    ReadQueue,
    /// Run an agent that only fills the queue.
    Refill { depth: usize },
    /// Read the state again for the length of the filled queue.
    ReadRefilled,
    /// Wait, then run the lead's agent again.
    Pause,
    /// Be done.
    Stop,
    /// Give up.
    Fail { message: String },
}

/// What came of it.
#[derive(Debug)]
pub enum LeadEvent {
    Done,
    Queue { depth: usize },
    Failed { message: String },
}

/// What the lead does next, and what it says before.
#[derive(Debug)]
pub struct LeadStep {
    pub notices: Vec<String>,
    pub action: LeadAction,
}

/// How the lead runs.
#[derive(Debug)]
pub struct LeadPlan {
    pub min_queue_depth: usize,
    pub once: bool,
    pub sleep_secs: u64,
}

/// The contents of a step: what is said, and what is done.
pub type StepView = (Seq<Seq<char>>, LeadMove);

/// What is done.
pub enum LeadMove {
    RunAgent,
    ReadState,
    Sweep,
    ReadQueue,
    Refill { depth: usize },
    ReadRefilled,
    Pause,
    Stop,
    Fail { message: Seq<char> },
}

impl View for LeadAction {
    type V = LeadMove;

    open spec fn view(&self) -> LeadMove {
        match *self {
            LeadAction::RunAgent => LeadMove::RunAgent,
            LeadAction::ReadState => LeadMove::ReadState,
            LeadAction::Sweep => LeadMove::Sweep,
            LeadAction::ReadQueue => LeadMove::ReadQueue,
            LeadAction::Refill { depth } => LeadMove::Refill { depth },
            LeadAction::ReadRefilled => LeadMove::ReadRefilled,
            LeadAction::Pause => LeadMove::Pause,
            LeadAction::Stop => LeadMove::Stop,
            LeadAction::Fail { message } => LeadMove::Fail { message: message@ },
        }
    }
}

impl View for LeadStep {
    type V = StepView;

    open spec fn view(&self) -> StepView {
        (text::texts(self.notices@), self.action@)
    }
}

impl LeadPlan {
    /// The queue as it is shown.
    pub open spec fn shown_queue(&self, depth: usize) -> Seq<char> {
        "queue depth is "@ + text::decimal(depth as nat) + " (min = "@ + text::decimal(
            self.min_queue_depth as nat,
        ) + ")"@
    }

    /// What is said before the agent is started again.
    pub open spec fn restart_notice(&self, start: Seq<char>) -> Seq<char> {
        start + text::decimal(self.sleep_secs as nat) + "s..."@
    }

    /// After the lead's agent.
    pub open spec fn after_agent(&self, event: LeadEvent) -> StepView {
        match event {
            LeadEvent::Failed { message } => if self.once {
                (seq!["Lead agent failed: "@ + message@], LeadMove::Fail { message: message@ })
            } else {
                (
                    seq![
                        "Lead agent failed: "@ + message@,
                        self.restart_notice("Restarting in "@),
                    ],
                    LeadMove::Pause,
                )
            },
            _ => (Seq::empty(), LeadMove::ReadState),
        }
    }

    /// After the state was read again for the length of the queue.
    pub open spec fn after_queue(&self, event: LeadEvent) -> StepView {
        match event {
            LeadEvent::Failed { message } => (
                seq![
                    "Warning: could not verify queue depth after post-agent decide sweep: "@
                        + message@,
                ],
                LeadMove::Stop,
            ),
            LeadEvent::Queue { depth } => if depth < self.min_queue_depth {
                (
                    seq![
                        "Warning: "@ + self.shown_queue(depth)
                            + ". Lead agent may not have generated enough theses."@,
                        "Running a focused queue refill retry..."@,
                    ],
                    LeadMove::Refill { depth },
                )
            } else {
                (Seq::empty(), LeadMove::Stop)
            },
            LeadEvent::Done => (Seq::empty(), LeadMove::Stop),
        }
    }

    /// After something failed that the agent is started again for.
    pub open spec fn retry_or_fail(&self, told: Seq<Seq<char>>, failure: Seq<char>) -> StepView {
        if self.once {
            (Seq::empty(), LeadMove::Fail { message: failure })
        } else {
            (
                told.push(self.restart_notice("Restarting agent to refill queue in "@)),
                LeadMove::Pause,
            )
        }
    }

    /// After the agent that only fills the queue.
    pub open spec fn after_refill(&self, event: LeadEvent) -> StepView {
        match event {
            LeadEvent::Failed { message } => if self.once {
                (
                    seq!["Lead queue refill retry failed: "@ + message@],
                    LeadMove::Fail { message: message@ },
                )
            } else {
                self.retry_or_fail(
                    seq!["Lead queue refill retry failed: "@ + message@],
                    message@,
                )
            },
            _ => (Seq::empty(), LeadMove::ReadRefilled),
        }
    }

    /// After the state was read again for the length of the filled queue.
    pub open spec fn after_refilled(&self, event: LeadEvent) -> StepView {
        match event {
            LeadEvent::Failed { message } => {
                let failure = "could not verify queue depth after focused refill retry: "@
                    + message@;
                self.retry_or_fail(seq!["Warning: "@ + failure], failure)
            },
            LeadEvent::Queue { depth } => if depth < self.min_queue_depth {
                let failure = self.shown_queue(depth)
                    + " after the lead workflow and focused refill retry"@;
                self.retry_or_fail(seq!["Warning: "@ + failure], failure)
            } else {
                (Seq::empty(), LeadMove::Stop)
            },
            LeadEvent::Done => (Seq::empty(), LeadMove::Stop),
        }
    }

    /// What follows an action and what came of it.
    pub open spec fn after(&self, done: LeadAction, event: LeadEvent) -> StepView {
        match done {
            LeadAction::RunAgent => self.after_agent(event),
            LeadAction::ReadState => match event {
                LeadEvent::Failed { message } => (
                    seq![
                        "Warning: could not verify queue depth after agent run: "@ + message@,
                    ],
                    LeadMove::Stop,
                ),
                _ => (Seq::empty(), LeadMove::Sweep),
            },
            LeadAction::Sweep => match event {
                LeadEvent::Failed { message } => (
                    seq!["Warning: post-agent decide sweep failed: "@ + message@],
                    LeadMove::ReadQueue,
                ),
                _ => (Seq::empty(), LeadMove::ReadQueue),
            },
            LeadAction::ReadQueue => self.after_queue(event),
            LeadAction::Refill { .. } => self.after_refill(event),
            LeadAction::ReadRefilled => self.after_refilled(event),
            LeadAction::Pause => (Seq::empty(), LeadMove::RunAgent),
            LeadAction::Stop => (Seq::empty(), LeadMove::Stop),
            LeadAction::Fail { message } => (Seq::empty(), LeadMove::Fail { message: message@ }),
        }
    }

    fn show_queue(&self, depth: usize) -> (r: String)
        ensures
            r@ == self.shown_queue(depth),
    {
        let mut r = text::say("queue depth is ", depth as u64, " (min = ");
        r.append(text::number(self.min_queue_depth as u64).as_str());
        r.append(")");
        r
    }

    fn retry(&self, told: Vec<String>, failure: String) -> (r: LeadStep)
        ensures
            r@ == self.retry_or_fail(text::texts(told@), failure@),
    {
        if self.once {
            return quiet(LeadAction::Fail { message: failure });
        }
        let ghost before = told@;
        let mut told = told;
        told.push(text::say("Restarting agent to refill queue in ", self.sleep_secs, "s..."));
        proof {
            text::lemma_texts_push(before, told@.last());
            assert(told@ =~= before.push(told@.last()));
        }
        LeadStep { notices: told, action: LeadAction::Pause }
    }

    fn step_after_agent(&self, event: LeadEvent) -> (r: LeadStep)
        ensures
            r@ == self.after_agent(event),
    {
        match event {
            LeadEvent::Failed { message } => {
                let told = with("Lead agent failed: ", message.as_str());
                if self.once {
                    saying(told, LeadAction::Fail { message })
                } else {
                    let restart = text::say("Restarting in ", self.sleep_secs, "s...");
                    saying_two(told, restart, LeadAction::Pause)
                }
            },
            _ => quiet(LeadAction::ReadState),
        }
    }

    fn step_after_queue(&self, event: LeadEvent) -> (r: LeadStep)
        ensures
            r@ == self.after_queue(event),
    {
        match event {
            LeadEvent::Failed { message } => saying(
                with(
                    "Warning: could not verify queue depth after post-agent decide sweep: ",
                    message.as_str(),
                ),
                LeadAction::Stop,
            ),
            LeadEvent::Queue { depth } => {
                if depth < self.min_queue_depth {
                    let mut told = with("Warning: ", self.show_queue(depth).as_str());
                    told.append(". Lead agent may not have generated enough theses.");
                    saying_two(
                        told,
                        "Running a focused queue refill retry...".to_owned(),
                        LeadAction::Refill { depth },
                    )
                } else {
                    quiet(LeadAction::Stop)
                }
            },
            LeadEvent::Done => quiet(LeadAction::Stop),
        }
    }

    fn step_after_refill(&self, event: LeadEvent) -> (r: LeadStep)
        ensures
            r@ == self.after_refill(event),
    {
        match event {
            LeadEvent::Failed { message } => {
                let told = with("Lead queue refill retry failed: ", message.as_str());
                if self.once {
                    saying(told, LeadAction::Fail { message })
                } else {
                    self.retry(one(told), message)
                }
            },
            _ => quiet(LeadAction::ReadRefilled),
        }
    }

    fn step_after_refilled(&self, event: LeadEvent) -> (r: LeadStep)
        ensures
            r@ == self.after_refilled(event),
    {
        match event {
            LeadEvent::Failed { message } => {
                let failure = with(
                    "could not verify queue depth after focused refill retry: ",
                    message.as_str(),
                );
                self.retry(one(with("Warning: ", failure.as_str())), failure)
            },
            LeadEvent::Queue { depth } => {
                if depth < self.min_queue_depth {
                    let mut failure = self.show_queue(depth);
                    failure.append(" after the lead workflow and focused refill retry");
                    self.retry(one(with("Warning: ", failure.as_str())), failure)
                } else {
                    quiet(LeadAction::Stop)
                }
            },
            LeadEvent::Done => quiet(LeadAction::Stop),
        }
    }

    /// What follows an action and what came of it. The agent is run; then the state is read, what
    /// is ready is decided, and the queue is looked at. A queue that is too short is filled by
    /// another agent; where that does not help, the agent is started again, or, where it was to
    /// run only once, the lead gives up.
    pub fn next(&self, done: LeadAction, event: LeadEvent) -> (r: LeadStep)
        ensures
            r@ == self.after(done, event),
    {
        match done {
            LeadAction::RunAgent => self.step_after_agent(event),
            LeadAction::ReadState => match event {
                LeadEvent::Failed { message } => saying(
                    with(
                        "Warning: could not verify queue depth after agent run: ",
                        message.as_str(),
                    ),
                    LeadAction::Stop,
                ),
                _ => quiet(LeadAction::Sweep),
            },
            LeadAction::Sweep => match event {
                LeadEvent::Failed { message } => saying(
                    with("Warning: post-agent decide sweep failed: ", message.as_str()),
                    LeadAction::ReadQueue,
                ),
                _ => quiet(LeadAction::ReadQueue),
            },
            LeadAction::ReadQueue => self.step_after_queue(event),
            LeadAction::Refill { .. } => self.step_after_refill(event),
            LeadAction::ReadRefilled => self.step_after_refilled(event),
            LeadAction::Pause => quiet(LeadAction::RunAgent),
            LeadAction::Stop => quiet(LeadAction::Stop),
            LeadAction::Fail { message } => quiet(LeadAction::Fail { message }),
        }
    }
}

/// A lead that runs only once never starts its agent a second time, and one that may go on never
/// gives up.
pub proof fn once_means_once(plan: LeadPlan, done: LeadAction, event: LeadEvent)
    requires
        !(done is Pause),
        !(done is Fail),
    ensures
        plan.once ==> !(plan.after(done, event).1 is Pause) && !(plan.after(done, event).1
            is RunAgent),
        !plan.once ==> !(plan.after(done, event).1 is Fail),
{
}

/// A look at the queue ends the run just where the queue is long enough.
pub proof fn a_filled_queue_ends_the_run(plan: LeadPlan, depth: usize)
    ensures
        plan.after(LeadAction::ReadQueue, LeadEvent::Queue { depth }).1 is Stop <==> depth
            >= plan.min_queue_depth,
        plan.after(LeadAction::ReadRefilled, LeadEvent::Queue { depth }).1 is Stop <==> depth
            >= plan.min_queue_depth,
{
}

fn with(start: &str, rest: &str) -> (r: String)
    ensures
        r@ == start@ + rest@,
{
    let mut r = start.to_owned();
    r.append(rest);
    r
}

fn one(told: String) -> (r: Vec<String>)
    ensures
        text::texts(r@) == seq![told@],
{
    let r = vec![told];
    assert(text::texts(r@) =~= seq![told@]);
    r
}

fn quiet(action: LeadAction) -> (r: LeadStep)
    ensures
        r@ == (Seq::<Seq<char>>::empty(), action@),
{
    let notices: Vec<String> = Vec::new();
    assert(text::texts(notices@) =~= Seq::<Seq<char>>::empty());
    LeadStep { notices, action }
}

fn saying(told: String, action: LeadAction) -> (r: LeadStep)
    ensures
        r@ == (seq![told@], action@),
{
    LeadStep { notices: one(told), action }
}

fn saying_two(told: String, more: String, action: LeadAction) -> (r: LeadStep)
    ensures
        r@ == (seq![told@, more@], action@),
{
    let notices = vec![told, more];
    assert(text::texts(notices@) =~= seq![told@, more@]);
    LeadStep { notices, action }
}

/// What is done with a candidate that is ready to be decided.
#[derive(Debug)]
pub enum SweepAction {
    /// It conflicts with the default branch: record that it is stale, and close it.
    CloseStale { comment: ProtocolComment },
    /// It would be closed as stale.
    WouldClose,
    /// It would be decided.
    WouldDecide,
    /// Decide it.
    Decide,
}

/// A candidate that is ready to be decided, by its place and that of its thesis.
#[derive(Debug)]
pub struct SweepItem {
    pub thesis: usize,
    pub candidate: usize,
    pub action: SweepAction,
}

/// What is done with a candidate.
pub enum SweepMove {
    CloseStale { comment: CommentView },
    WouldClose,
    WouldDecide,
    Decide,
}

/// What a sweep does with a candidate, by its place and that of its thesis.
pub struct SweepView {
    pub thesis: int,
    pub candidate: int,
    pub action: SweepMove,
}

impl View for SweepAction {
    type V = SweepMove;

    open spec fn view(&self) -> SweepMove {
        match *self {
            SweepAction::CloseStale { comment } => SweepMove::CloseStale { comment: comment@ },
            SweepAction::WouldClose => SweepMove::WouldClose,
            SweepAction::WouldDecide => SweepMove::WouldDecide,
            SweepAction::Decide => SweepMove::Decide,
        }
    }
}

impl View for SweepItem {
    type V = SweepView;

    open spec fn view(&self) -> SweepView {
        SweepView {
            thesis: self.thesis as int,
            candidate: self.candidate as int,
            action: self.action@,
        }
    }
}

/// The contents of items.
pub open spec fn item_views(items: Seq<SweepItem>) -> Seq<SweepView> {
    items.map_values(|i: SweepItem| i@)
}

/// The candidate cannot be merged as it is.
pub open spec fn conflicts(pr: PullRequestState) -> bool {
    comments::option_text(pr.pr.mergeable) == Some("CONFLICTING"@)
}

/// The commit that a candidate ends in, or nothing.
pub open spec fn head_of(pr: PullRequestState) -> Seq<char> {
    match pr.pr.head_ref_oid {
        Some(t) => t@,
        None => Seq::empty(),
    }
}

/// What a sweep does with a candidate.
pub open spec fn sweep_move(
    config: ProtocolConfig,
    thesis: ThesisState,
    pr: PullRequestState,
    dry_run: bool,
) -> Option<SweepMove> {
    if !decide::decidable(config, pr, config.required_confirmations as nat) {
        None
    } else if conflicts(pr) {
        if dry_run {
            Some(SweepMove::WouldClose)
        } else {
            Some(
                SweepMove::CloseStale {
                    comment: CommentView::Decision {
                        thesis: thesis.issue.number,
                        candidate_sha: head_of(pr),
                        outcome: Outcome::Stale,
                        confirmations: 0,
                    },
                },
            )
        }
    } else if dry_run {
        Some(SweepMove::WouldDecide)
    } else {
        Some(SweepMove::Decide)
    }
}

/// What a sweep does with the candidates of a thesis.
pub open spec fn sweep_thesis(
    config: ProtocolConfig,
    thesis: ThesisState,
    prs: Seq<PullRequestState>,
    at: int,
    dry_run: bool,
) -> Seq<SweepView>
    decreases prs.len(),
{
    if prs.len() == 0 {
        Seq::empty()
    } else {
        let rest = sweep_thesis(config, thesis, prs.drop_last(), at, dry_run);
        match sweep_move(config, thesis, prs.last(), dry_run) {
            Some(action) => rest.push(SweepView { thesis: at, candidate: prs.len() - 1, action }),
            None => rest,
        }
    }
}

/// What a sweep does with the candidates of theses.
pub open spec fn sweep_all(config: ProtocolConfig, theses: Seq<ThesisState>, dry_run: bool) -> Seq<
    SweepView,
>
    decreases theses.len(),
{
    if theses.len() == 0 {
        Seq::empty()
    } else {
        let t = theses.last();
        sweep_all(config, theses.drop_last(), dry_run) + sweep_thesis(
            config,
            t,
            t.pull_requests@,
            theses.len() - 1,
            dry_run,
        )
    }
}

/// The commit that a candidate ends in, or nothing.
pub fn candidate_sha(pr: &PullRequestState) -> (r: String)
    ensures
        r@ == head_of(*pr),
{
    match &pr.pr.head_ref_oid {
        Some(t) => t.clone(),
        None => {
            let r = String::new();
            assert(r@ =~= Seq::<char>::empty());
            r
        },
    }
}

fn sweep_candidate(
    config: &ProtocolConfig,
    thesis: &ThesisState,
    pr: &PullRequestState,
    dry_run: bool,
) -> (r: Option<SweepAction>)
    ensures
        match sweep_move(*config, *thesis, *pr, dry_run) {
            Some(m) => r matches Some(a) && a@ == m,
            None => r is None,
        },
{
    if pr.reviews.len() as u64 >= config.required_confirmations {
        if !decide::is_pr_decidable(config, pr, config.required_confirmations as usize) {
            return None;
        }
    } else {
        return None;
    }
    let conflicting = match &pr.pr.mergeable {
        Some(t) => text::same(t.as_str(), "CONFLICTING"),
        None => false,
    };
    if conflicting {
        if dry_run {
            return Some(SweepAction::WouldClose);
        }
        return Some(
            SweepAction::CloseStale {
                comment: ProtocolComment::Decision {
                    thesis: thesis.issue.number,
                    candidate_sha: candidate_sha(pr),
                    outcome: Outcome::Stale,
                    confirmations: 0,
                },
            },
        );
    }
    if dry_run {
        Some(SweepAction::WouldDecide)
    } else {
        Some(SweepAction::Decide)
    }
}

/// The candidates that are ready to be decided, in order, and what to do with each. Where no
/// reviews are wanted, the ledger must lack no row, and nothing is done where it does.
pub fn decide_ready_prs(
    config: &ProtocolConfig,
    repo_state: &RepositoryState,
    ledger: &Option<Ledger>,
    dry_run: bool,
) -> (r: Option<Vec<SweepItem>>)
    ensures
        if config.required_confirmations == 0 && !(ledger matches Some(l) && l.current(
            *repo_state,
        )) {
            r is None
        } else {
            r matches Some(items) && item_views(items@) == sweep_all(
                *config,
                repo_state.theses@,
                dry_run,
            )
        },
{
    if config.required_confirmations == 0 {
        match ledger {
            Some(l) => {
                if !l.is_current(repo_state) {
                    return None;
                }
            },
            None => {
                return None;
            },
        }
    }
    let mut items: Vec<SweepItem> = Vec::new();
    let theses = &repo_state.theses;
    let mut i: usize = 0;
    proof {
        assert(theses@.take(0).len() == 0);
        assert(item_views(items@) =~= Seq::<SweepView>::empty());
    }
    while i < theses.len()
        invariant
            i <= theses.len(),
            item_views(items@) == sweep_all(*config, theses@.take(i as int), dry_run),
        decreases theses.len() - i,
    {
        let ghost before = item_views(items@);
        let prs = &theses[i].pull_requests;
        let mut k: usize = 0;
        proof {
            assert(prs@.take(0).len() == 0);
            assert(before + sweep_thesis(
                *config,
                theses@[i as int],
                prs@.take(0),
                i as int,
                dry_run,
            ) =~= before);
        }
        while k < prs.len()
            invariant
                i < theses.len(),
                k <= prs.len(),
                *prs == theses@[i as int].pull_requests,
                item_views(items@) == before + sweep_thesis(
                    *config,
                    theses@[i as int],
                    prs@.take(k as int),
                    i as int,
                    dry_run,
                ),
            decreases prs.len() - k,
        {
            let ghost at = items@;
            proof {
                assert(prs@.take(k + 1).drop_last() =~= prs@.take(k as int));
                assert(prs@.take(k + 1).last() == prs@[k as int]);
                assert(prs@.take(k + 1).len() == k + 1);
            }
            if let Some(action) = sweep_candidate(config, &theses[i], &prs[k], dry_run) {
                items.push(SweepItem { thesis: i, candidate: k, action });
                assert(item_views(items@) =~= item_views(at).push(items@.last()@));
            }
            proof {
                assert(item_views(items@) =~= before + sweep_thesis(
                    *config,
                    theses@[i as int],
                    prs@.take(k + 1),
                    i as int,
                    dry_run,
                ));
            }
            k = k + 1;
        }
        proof {
            assert(prs@.take(k as int) =~= prs@);
            assert(theses@.take(i + 1).drop_last() =~= theses@.take(i as int));
            assert(theses@.take(i + 1).last() == theses@[i as int]);
            assert(theses@.take(i + 1).len() == i + 1);
        }
        i = i + 1;
    }
    assert(theses@.take(i as int) =~= theses@);
    Some(items)
}

} // verus!
