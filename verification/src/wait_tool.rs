//! Waiting for agents: how long, for whom, and what is reported.

use std::collections::HashMap;
use vstd::prelude::*;
use vstd::std_specs::iter::IteratorSpec;
use crate::agent::{
    is_final, is_final_status, thread_id_text, AgentMetadata, AgentStatus, ThreadId,
};
use crate::text::{join, join_texts, signed_decimal, signed_decimal_text, texts};

verus! {

/// The bounds on how long a wait may last, and how long it lasts where
/// nothing is asked for.
#[derive(Clone, Copy, Debug, PartialEq, Eq, Structural)]
pub struct WaitLimits {
    pub min_timeout_ms: i64,
    pub max_timeout_ms: i64,
    pub default_timeout_ms: i64,
}

/// How long to wait: what is asked for, if it lies within the bounds, else what
/// is set where nothing is asked for.
pub open spec fn allowed_timeout(limits: WaitLimits, requested: Option<i64>) -> Option<i64> {
    match requested {
        Some(ms) => if limits.min_timeout_ms <= ms <= limits.max_timeout_ms {
            Some(ms)
        } else {
            None
        },
        None => Some(limits.default_timeout_ms),
    }
}

/// How long to wait: what is asked for, if it lies within the bounds.
pub fn wait_timeout(limits: WaitLimits, requested: Option<i64>) -> (result: Result<i64, String>)
    ensures
        result is Ok <==> allowed_timeout(limits, requested) is Some,
        result matches Ok(ms) ==> allowed_timeout(limits, requested) == Some(ms),
        match requested {
            Some(ms) => if ms < limits.min_timeout_ms {
                result matches Err(message) && message@ == "timeout_ms must be at least "@
                    + signed_decimal(limits.min_timeout_ms as int)
            } else if ms > limits.max_timeout_ms {
                result matches Err(message) && message@ == "timeout_ms must be at most "@
                    + signed_decimal(limits.max_timeout_ms as int)
            } else {
                result == Ok::<i64, String>(ms)
            },
            None => result == Ok::<i64, String>(limits.default_timeout_ms),
        },
{
    match requested {
        Some(ms) => {
            if ms < limits.min_timeout_ms {
                return Err(
                    "timeout_ms must be at least ".to_owned().concat(
                        signed_decimal_text(limits.min_timeout_ms).as_str(),
                    ),
                );
            }
            if ms > limits.max_timeout_ms {
                return Err(
                    "timeout_ms must be at most ".to_owned().concat(
                        signed_decimal_text(limits.max_timeout_ms).as_str(),
                    ),
                );
            }
            Ok(ms)
        },
        None => Ok(limits.default_timeout_ms),
    }
}

/// An agent that is waited for.
#[derive(Debug)]
pub struct CollabAgentRef {
    pub thread_id: ThreadId,
    pub agent_nickname: Option<String>,
    pub agent_role: Option<String>,
}

impl Clone for CollabAgentRef {
    fn clone(&self) -> (result: Self)
        ensures
            result == *self,
    {
        CollabAgentRef {
            thread_id: self.thread_id,
            agent_nickname: self.agent_nickname.clone(),
            agent_role: self.agent_role.clone(),
        }
    }
}

/// An agent that is waited for, with its names where it is known.
pub fn receiver_agent(thread_id: ThreadId, metadata: Option<AgentMetadata>) -> (result:
    CollabAgentRef)
    ensures
        result == (match metadata {
            Some(metadata) => CollabAgentRef {
                thread_id,
                agent_nickname: metadata.agent_nickname,
                agent_role: metadata.agent_role,
            },
            None => CollabAgentRef { thread_id, agent_nickname: None, agent_role: None },
        }),
{
    match metadata {
        Some(metadata) => CollabAgentRef {
            thread_id,
            agent_nickname: metadata.agent_nickname,
            agent_role: metadata.agent_role,
        },
        None => CollabAgentRef { thread_id, agent_nickname: None, agent_role: None },
    }
}

/// What to do about a wait for children that wake their parent anyway.
#[derive(Clone, Copy, Debug, PartialEq, Eq, Structural)]
pub enum AgentWaitOnWakeEnabledBehavior {
    Allow,
    Reject,
}

impl Default for AgentWaitOnWakeEnabledBehavior {
    /// Such a wait is refused where nothing else is configured.
    fn default() -> (result: Self)
        ensures
            result is Reject,
    {
        AgentWaitOnWakeEnabledBehavior::Reject
    }
}

/// The children whose work is not over.
pub open spec fn active_children(children: Seq<(ThreadId, AgentStatus)>) -> Seq<ThreadId> {
    children.filter(|child: (ThreadId, AgentStatus)| !is_final_status(child.1)).map_values(
        |child: (ThreadId, AgentStatus)| child.0,
    )
}

/// The texts of identities.
pub open spec fn id_texts(ids: Seq<ThreadId>) -> Seq<Seq<char>> {
    ids.map_values(|id: ThreadId| thread_id_text(id.bits))
}

/// Why a wait for wake-enabled children is refused.
pub open spec fn wake_enabled_wait_message(parent: ThreadId, active: Seq<ThreadId>) -> Seq<char> {
    "wait is disabled for wake-enabled child agents by current configuration. These child threads already have wake_parent_on_completion enabled for parent "@
        + thread_id_text(parent.bits) + ": "@ + join(id_texts(active), ", "@)
        + ". End the current turn and rely on the automatic wake path instead, or set agents.wait_on_wake_enabled = \"allow\" / spawn the child with wake_parent_on_completion=false when you explicitly want polling."@
}

fn active_ids(children: &Vec<(ThreadId, AgentStatus)>) -> (result: Vec<ThreadId>)
    ensures
        result@ == active_children(children@),
{
    let ghost keep = |child: (ThreadId, AgentStatus)| !is_final_status(child.1);
    let ghost id = |child: (ThreadId, AgentStatus)| child.0;
    let mut result: Vec<ThreadId> = Vec::new();
    let mut i: usize = 0;
    proof {
        reveal(Seq::filter);
        assert(children@.take(0).filter(keep).map_values(id) =~= Seq::<ThreadId>::empty());
    }
    while i < children.len()
        invariant
            i <= children.len(),
            keep == (|child: (ThreadId, AgentStatus)| !is_final_status(child.1)),
            id == (|child: (ThreadId, AgentStatus)| child.0),
            result@ == children@.take(i as int).filter(keep).map_values(id),
        decreases children.len() - i,
    {
        let ghost item = children@[i as int];
        let ghost kept = children@.take(i as int).filter(keep);
        proof {
            assert(children@.take(i + 1) =~= children@.take(i as int).push(item));
            children@.take(i as int).lemma_filter_push(item, keep);
        }
        if !is_final(&children[i].1) {
            result.push(children[i].0);
            assert(kept.push(item).map_values(id) =~= kept.map_values(id).push(id(item)));
        }
        i += 1;
    }
    assert(children@.take(i as int) =~= children@);
    result
}

/// Refuses a wait for wake-enabled children that still work, where such waits
/// are to be refused. The children come with their statuses.
pub fn check_wake_enabled_wait(
    parent_thread_id: ThreadId,
    wake_enabled_children: &Vec<(ThreadId, AgentStatus)>,
    behavior: AgentWaitOnWakeEnabledBehavior,
) -> (result: Result<(), String>)
    ensures
        result is Err <==> behavior is Reject && active_children(wake_enabled_children@).len() > 0,
        result matches Err(message) ==> message@ == wake_enabled_wait_message(
            parent_thread_id,
            active_children(wake_enabled_children@),
        ),
{
    let active = active_ids(wake_enabled_children);
    if active.len() > 0 && matches!(behavior, AgentWaitOnWakeEnabledBehavior::Reject) {
        let mut ids: Vec<String> = Vec::new();
        let mut i: usize = 0;
        while i < active.len()
            invariant
                i <= active.len(),
                texts(ids@) == id_texts(active@.take(i as int)),
            decreases active.len() - i,
        {
            let ghost before = ids@;
            let id = active[i].to_text();
            ids.push(id);
            i += 1;
            assert(texts(ids@) =~= texts(before).push(id@));
            assert(texts(ids@) =~= id_texts(active@.take(i as int)));
        }
        assert(active@.take(i as int) =~= active@);
        let message =
            "wait is disabled for wake-enabled child agents by current configuration. These child threads already have wake_parent_on_completion enabled for parent ".to_owned().concat(
        parent_thread_id.to_text().as_str()).concat(": ").concat(
            join_texts(&ids, ", ").as_str(),
        ).concat(
            ". End the current turn and rely on the automatic wake path instead, or set agents.wait_on_wake_enabled = \"allow\" / spawn the child with wake_parent_on_completion=false when you explicitly want polling.",
        );
        return Err(message);
    }
    Ok(())
}

/// What comes of looking at one agent's status.
#[derive(Debug)]
pub enum StatusLook {
    /// Its status, whose changes can be seen.
    Status(AgentStatus),
    /// There is no such thread.
    ThreadNotFound,
    /// It cannot be looked at.
    Failed,
}

/// What is known when all agents have been looked at.
#[derive(Debug)]
pub enum StatusLooks {
    /// The agent that could not be looked at; the wait fails with it.
    Failed(ThreadId),
    /// The agents whose work is over, if any.
    Finals(Vec<(ThreadId, AgentStatus)>),
}

/// The final status that a look shows.
pub open spec fn look_final(look: (ThreadId, StatusLook)) -> Option<(ThreadId, AgentStatus)> {
    match look.1 {
        StatusLook::Status(status) if is_final_status(status) => Some((look.0, status)),
        StatusLook::ThreadNotFound => Some((look.0, AgentStatus::NotFound)),
        _ => None,
    }
}

/// The final statuses that the looks show, in order.
pub open spec fn looks_final(looks: Seq<(ThreadId, StatusLook)>) -> Seq<(ThreadId, AgentStatus)>
    decreases looks.len(),
{
    if looks.len() == 0 {
        Seq::empty()
    } else {
        match look_final(looks.last()) {
            Some(status) => looks_final(looks.drop_last()).push(status),
            None => looks_final(looks.drop_last()),
        }
    }
}

/// What is known when the agents have been looked at, one after the other up
/// to the first that cannot be.
pub fn gather_statuses(looks: &Vec<(ThreadId, StatusLook)>) -> (result: StatusLooks)
    ensures
        match result {
            StatusLooks::Failed(id) => exists|i: int|
                0 <= i < looks@.len() && (#[trigger] looks@[i]).1 is Failed && looks@[i].0 == id
                    && forall|j: int| 0 <= j < i ==> (#[trigger] looks@[j]).1 !is Failed,
            StatusLooks::Finals(finals) => {
                &&& forall|j: int| 0 <= j < looks@.len() ==> (#[trigger] looks@[j]).1 !is Failed
                &&& finals@ == looks_final(looks@)
            },
        },
{
    let mut finals: Vec<(ThreadId, AgentStatus)> = Vec::new();
    let mut i: usize = 0;
    while i < looks.len()
        invariant
            i <= looks.len(),
            forall|j: int| 0 <= j < i ==> (#[trigger] looks@[j]).1 !is Failed,
            finals@ == looks_final(looks@.take(i as int)),
        decreases looks.len() - i,
    {
        assert(looks@.take(i + 1).drop_last() =~= looks@.take(i as int));
        let id = looks[i].0;
        match &looks[i].1 {
            StatusLook::Status(status) => {
                if is_final(status) {
                    finals.push((id, status.clone()));
                }
            },
            StatusLook::ThreadNotFound => {
                finals.push((id, AgentStatus::NotFound));
            },
            StatusLook::Failed => {
                assert(looks@[i as int].1 is Failed);
                return StatusLooks::Failed(id);
            },
        }
        i += 1;
    }
    assert(looks@.take(i as int) =~= looks@);
    StatusLooks::Finals(finals)
}

/// Where the collection of completions stands.
#[derive(Clone, Copy, Debug, PartialEq, Eq, Structural)]
pub enum CollectPhase {
    /// The first completion is awaited, until the deadline.
    AwaitFirst,
    /// What else is complete already is taken along, without waiting.
    Drain,
    Done,
}

/// What the agents that are waited for answer.
#[derive(Debug)]
pub enum CollectEvent {
    /// One completed.
    Completed(ThreadId, AgentStatus),
    /// One ended without a final status.
    Gone,
    /// None is left, or the deadline passed, or none is complete already.
    NoMore,
}

/// The completions collected so far.
#[derive(Debug)]
pub struct Collection {
    pub phase: CollectPhase,
    pub results: Vec<(ThreadId, AgentStatus)>,
}

impl Collection {
    /// Nothing collected yet.
    pub fn new() -> (result: Collection)
        ensures
            result.phase is AwaitFirst,
            result.results@.len() == 0,
    {
        Collection { phase: CollectPhase::AwaitFirst, results: Vec::new() }
    }

    /// Takes in an answer. The first completion ends the waiting; after it,
    /// completions are taken as long as there are any at once.
    pub fn step(&mut self, event: CollectEvent)
        ensures
            match event {
                _ if old(self).phase is Done => {
                    &&& final(self).phase is Done
                    &&& final(self).results@ == old(self).results@
                },
                CollectEvent::Completed(id, status) => {
                    &&& final(self).phase is Drain
                    &&& final(self).results@ == old(self).results@.push((id, status))
                },
                CollectEvent::Gone => {
                    &&& final(self).phase == old(self).phase
                    &&& final(self).results@ == old(self).results@
                },
                CollectEvent::NoMore => {
                    &&& final(self).phase is Done
                    &&& final(self).results@ == old(self).results@
                },
            },
    {
        match self.phase {
            CollectPhase::Done => {},
            _ => match event {
                CollectEvent::Completed(id, status) => {
                    self.results.push((id, status));
                    self.phase = CollectPhase::Drain;
                },
                CollectEvent::Gone => {},
                CollectEvent::NoMore => {
                    self.phase = CollectPhase::Done;
                },
            },
        }
    }
}

/// How a wait ended.
#[derive(Clone, Copy, Debug, PartialEq, Eq, Structural)]
pub enum WaitOutcome {
    MailboxActivity,
    Steered,
    TimedOut,
}

/// The statuses by the agents' identities; of several statuses of one agent
/// the last one counts.
pub open spec fn statuses_by_id(statuses: Seq<(ThreadId, AgentStatus)>) -> Map<u128, AgentStatus>
    decreases statuses.len(),
{
    if statuses.len() == 0 {
        Map::empty()
    } else {
        statuses_by_id(statuses.drop_last()).insert(statuses.last().0.bits, statuses.last().1)
    }
}

/// How a wait for agents ended, and the statuses by the agents' identities.
pub fn wait_outcome(statuses: &Vec<(ThreadId, AgentStatus)>) -> (result: (
    WaitOutcome,
    HashMap<u128, AgentStatus>,
))
    ensures
        result.0 == (if statuses@.len() == 0 {
            WaitOutcome::TimedOut
        } else {
            WaitOutcome::MailboxActivity
        }),
        result.1@ == statuses_by_id(statuses@),
{
    let outcome = if statuses.len() == 0 {
        WaitOutcome::TimedOut
    } else {
        WaitOutcome::MailboxActivity
    };
    let mut by_id: HashMap<u128, AgentStatus> = HashMap::new();
    let mut i: usize = 0;
    while i < statuses.len()
        invariant
            i <= statuses.len(),
            by_id@ == statuses_by_id(statuses@.take(i as int)),
        decreases statuses.len() - i,
    {
        assert(statuses@.take(i + 1).drop_last() =~= statuses@.take(i as int));
        by_id.insert(statuses[i].0.bits, statuses[i].1.clone());
        i += 1;
    }
    assert(statuses@.take(i as int) =~= statuses@);
    (outcome, by_id)
}

/// What the caller of a wait is told.
#[derive(Debug)]
pub struct WaitAgentResult {
    pub message: String,
    pub timed_out: bool,
}

impl WaitAgentResult {
    /// What the caller of a wait is told about how it ended.
    pub fn from_outcome(outcome: WaitOutcome) -> (result: WaitAgentResult)
        ensures
            result.message@ == (match outcome {
                WaitOutcome::MailboxActivity => "Wait completed."@,
                WaitOutcome::Steered => "Wait interrupted by new input."@,
                WaitOutcome::TimedOut => "Wait timed out."@,
            }),
            result.timed_out == (outcome is TimedOut),
    {
        let message = match outcome {
            WaitOutcome::MailboxActivity => "Wait completed.",
            WaitOutcome::Steered => "Wait interrupted by new input.",
            WaitOutcome::TimedOut => "Wait timed out.",
        };
        WaitAgentResult {
            message: message.to_owned(),
            timed_out: matches!(outcome, WaitOutcome::TimedOut),
        }
    }
}

/// What happens in a thread's input queue.
#[derive(Clone, Copy, Debug, PartialEq, Eq, Structural)]
pub enum InputQueueActivity {
    Mailbox,
    Steer,
}

/// How a wait without targets ends: with the activity that was pending, else
/// with the one that came before the deadline, if one came.
pub fn wait_for_activity(
    pending_activity: Option<InputQueueActivity>,
    activity_before_deadline: Option<InputQueueActivity>,
) -> (result: WaitOutcome)
    ensures
        result == (match (pending_activity, activity_before_deadline) {
            (Some(InputQueueActivity::Mailbox), _) => WaitOutcome::MailboxActivity,
            (Some(InputQueueActivity::Steer), _) => WaitOutcome::Steered,
            (None, Some(InputQueueActivity::Mailbox)) => WaitOutcome::MailboxActivity,
            (None, Some(InputQueueActivity::Steer)) => WaitOutcome::Steered,
            (None, None) => WaitOutcome::TimedOut,
        }),
{
    let activity = match pending_activity {
        Some(activity) => Some(activity),
        None => activity_before_deadline,
    };
    match activity {
        Some(InputQueueActivity::Mailbox) => WaitOutcome::MailboxActivity,
        Some(InputQueueActivity::Steer) => WaitOutcome::Steered,
        None => WaitOutcome::TimedOut,
    }
}

/// What one agent's status changes bring.
#[derive(Debug)]
pub enum FinalStatusEvent {
    /// The status at the start, or a new one.
    Status(AgentStatus),
    /// No more changes will come; the last status.
    Closed(AgentStatus),
}

/// Whether the wait for one agent goes on.
#[derive(Debug)]
pub enum FinalStatusStep {
    AwaitChange,
    Done(Option<(ThreadId, AgentStatus)>),
}

/// Whether the wait for one agent goes on.
pub open spec fn final_status_step(
    thread_id: ThreadId,
    event: FinalStatusEvent,
) -> FinalStatusStep {
    match event {
        FinalStatusEvent::Status(status) => if is_final_status(status) {
            FinalStatusStep::Done(Some((thread_id, status)))
        } else {
            FinalStatusStep::AwaitChange
        },
        FinalStatusEvent::Closed(status) => FinalStatusStep::Done(
            if is_final_status(status) {
                Some((thread_id, status))
            } else {
                None
            },
        ),
    }
}

/// Whether the wait for one agent goes on: it ends with the first final
/// status, or without one when no more changes will come.
pub fn wait_for_final_status(thread_id: ThreadId, event: FinalStatusEvent) -> (result:
    FinalStatusStep)
    ensures
        result == final_status_step(thread_id, event),
{
    match event {
        FinalStatusEvent::Status(status) => {
            if is_final(&status) {
                FinalStatusStep::Done(Some((thread_id, status)))
            } else {
                FinalStatusStep::AwaitChange
            }
        },
        FinalStatusEvent::Closed(status) => {
            if is_final(&status) {
                FinalStatusStep::Done(Some((thread_id, status)))
            } else {
                FinalStatusStep::Done(None)
            }
        },
    }
}

/// How a call of an agent tool went.
#[derive(Clone, Copy, Debug, PartialEq, Eq, Structural)]
pub enum CollabAgentToolCallStatus {
    InProgress,
    Completed,
    Failed,
}

/// A status that makes a wait count as failed.
pub open spec fn is_failure(status: AgentStatus) -> bool {
    status is Errored || status is NotFound
}

/// How a wait that ended with the given statuses went: it failed where an
/// agent ended with an error or was not there.
pub fn wait_tool_call_status(statuses: &HashMap<u128, AgentStatus>) -> (result:
    CollabAgentToolCallStatus)
    ensures
        result == (if exists|id: u128| #[trigger]
            statuses@.contains_key(id) && is_failure(statuses@[id]) {
            CollabAgentToolCallStatus::Failed
        } else {
            CollabAgentToolCallStatus::Completed
        }),
{
    for entry in iter: statuses.iter()
        invariant
            forall|k: int|
                0 <= k < iter.index() ==> !is_failure(*(#[trigger] iter.seq()[k]).1),
    {
        if matches!(entry.1, AgentStatus::Errored(_) | AgentStatus::NotFound) {
            assert(statuses@.contains_key(*entry.0));
            return CollabAgentToolCallStatus::Failed;
        }
    }
    CollabAgentToolCallStatus::Completed
}

/// Those of the agents that were waited for that a status is known of.
pub fn wait_receiver_agents(
    statuses: &HashMap<u128, AgentStatus>,
    receiver_agents: &Vec<CollabAgentRef>,
) -> (result: Vec<CollabAgentRef>)
    ensures
        result@ == receiver_agents@.filter(
            |agent: CollabAgentRef| statuses@.contains_key(agent.thread_id.bits),
        ),
{
    let ghost keep = |agent: CollabAgentRef| statuses@.contains_key(agent.thread_id.bits);
    let mut result: Vec<CollabAgentRef> = Vec::new();
    let mut i: usize = 0;
    proof {
        reveal(Seq::filter);
        assert(receiver_agents@.take(0).filter(keep) =~= Seq::<CollabAgentRef>::empty());
    }
    while i < receiver_agents.len()
        invariant
            i <= receiver_agents.len(),
            keep == (|agent: CollabAgentRef| statuses@.contains_key(agent.thread_id.bits)),
            result@ == receiver_agents@.take(i as int).filter(keep),
        decreases receiver_agents.len() - i,
    {
        let ghost item = receiver_agents@[i as int];
        proof {
            assert(receiver_agents@.take(i + 1) =~= receiver_agents@.take(i as int).push(item));
            receiver_agents@.take(i as int).lemma_filter_push(item, keep);
        }
        if statuses.contains_key(&receiver_agents[i].thread_id.bits) {
            result.push(receiver_agents[i].clone());
        }
        i += 1;
    }
    assert(receiver_agents@.take(i as int) =~= receiver_agents@);
    result
}

/// The agents that a status is known of, each once, in no particular order.
pub fn status_thread_ids(statuses: &HashMap<u128, AgentStatus>) -> (result: Vec<ThreadId>)
    ensures
        result@.no_duplicates(),
        forall|id: ThreadId| #[trigger]
            result@.contains(id) <==> statuses@.contains_key(id.bits),
{
    let ghost keys = statuses.keys().remaining().unref();
    let mut result: Vec<ThreadId> = Vec::new();
    for id in iter: statuses.keys()
        invariant
            iter.seq().unref() == keys,
            result@ == keys.take(iter.index()).map_values(|bits: u128| ThreadId { bits }),
    {
        result.push(ThreadId { bits: *id });
        assert(result@ =~= keys.take(iter.index() + 1).map_values(|bits: u128| ThreadId { bits }));
    }
    assert(result@ =~= keys.map_values(|bits: u128| ThreadId { bits }));
    assert forall|id: ThreadId| #[trigger] result@.contains(id) <==> statuses@.contains_key(
        id.bits,
    ) by {
        assert(keys.to_set().contains(id.bits) <==> statuses@.dom().contains(id.bits));
        if keys.contains(id.bits) {
            let k = choose|k: int| 0 <= k < keys.len() && keys[k] == id.bits;
            assert(result@[k] == id);
        }
        if result@.contains(id) {
            let k = choose|k: int| 0 <= k < result@.len() && result@[k] == id;
            assert(keys[k] == id.bits);
        }
    }
    result
}

/// What a wait for targets does next.
#[derive(Debug)]
pub enum WaitNext {
    /// Refuse the wait.
    Reject(String),
    /// Look at the status of each target.
    LookAtTargets,
    /// Fail, because this target cannot be looked at.
    Fail(ThreadId),
    /// Wait for one of the targets to complete.
    Collect,
    /// Report these statuses.
    Report(Vec<(ThreadId, AgentStatus)>),
}

/// What a wait does once it is known which targets are wake-enabled.
pub fn wait_after_wake_enabled(
    parent_thread_id: ThreadId,
    wake_enabled_children: &Vec<(ThreadId, AgentStatus)>,
    behavior: AgentWaitOnWakeEnabledBehavior,
) -> (result: WaitNext)
    ensures
        match result {
            WaitNext::Reject(message) => {
                &&& behavior is Reject
                &&& active_children(wake_enabled_children@).len() > 0
                &&& message@ == wake_enabled_wait_message(
                    parent_thread_id,
                    active_children(wake_enabled_children@),
                )
            },
            WaitNext::LookAtTargets => !(behavior is Reject && active_children(
                wake_enabled_children@,
            ).len() > 0),
            _ => false,
        },
{
    match check_wake_enabled_wait(parent_thread_id, wake_enabled_children, behavior) {
        Ok(()) => WaitNext::LookAtTargets,
        Err(message) => WaitNext::Reject(message),
    }
}

/// What a wait does once its targets were looked at: those whose work is over
/// are reported at once, without waiting for the others.
pub fn wait_after_looks(looks: &Vec<(ThreadId, StatusLook)>) -> (result: WaitNext)
    ensures
        match result {
            WaitNext::Fail(id) => exists|i: int|
                0 <= i < looks@.len() && (#[trigger] looks@[i]).1 is Failed && looks@[i].0 == id
                    && forall|j: int| 0 <= j < i ==> (#[trigger] looks@[j]).1 !is Failed,
            WaitNext::Report(finals) => {
                &&& forall|j: int| 0 <= j < looks@.len() ==> (#[trigger] looks@[j]).1 !is Failed
                &&& finals@ == looks_final(looks@)
                &&& finals@.len() > 0
            },
            WaitNext::Collect => {
                &&& forall|j: int| 0 <= j < looks@.len() ==> (#[trigger] looks@[j]).1 !is Failed
                &&& looks_final(looks@).len() == 0
            },
            _ => false,
        },
{
    match gather_statuses(looks) {
        StatusLooks::Failed(id) => WaitNext::Fail(id),
        StatusLooks::Finals(finals) => {
            if finals.len() == 0 {
                WaitNext::Collect
            } else {
                WaitNext::Report(finals)
            }
        },
    }
}

/// What is shown of a wait that ended.
pub struct WaitReport {
    pub status: CollabAgentToolCallStatus,
    pub receiver_thread_ids: Vec<ThreadId>,
    pub receiver_agents: Vec<CollabAgentRef>,
    pub agents_states: HashMap<u128, AgentStatus>,
}

/// What is shown of a wait that ended with the given statuses.
pub fn wait_report(
    statuses: HashMap<u128, AgentStatus>,
    receiver_agents: &Vec<CollabAgentRef>,
) -> (result: WaitReport)
    ensures
        result.agents_states@ == statuses@,
        result.status == (if exists|id: u128| #[trigger]
            statuses@.contains_key(id) && is_failure(statuses@[id]) {
            CollabAgentToolCallStatus::Failed
        } else {
            CollabAgentToolCallStatus::Completed
        }),
        result.receiver_thread_ids@.no_duplicates(),
        forall|id: ThreadId| #[trigger]
            result.receiver_thread_ids@.contains(id) <==> statuses@.contains_key(id.bits),
        result.receiver_agents@ == receiver_agents@.filter(
            |agent: CollabAgentRef| statuses@.contains_key(agent.thread_id.bits),
        ),
{
    let status = wait_tool_call_status(&statuses);
    let receiver_thread_ids = status_thread_ids(&statuses);
    let receiver_agents = wait_receiver_agents(&statuses, receiver_agents);
    WaitReport { status, receiver_thread_ids, receiver_agents, agents_states: statuses }
}

/// No wait goes through for a wake-enabled child that still works, where such
/// waits are to be refused.
pub proof fn lemma_active_wake_enabled_wait_refused(
    children: Seq<(ThreadId, AgentStatus)>,
    i: int,
)
    requires
        0 <= i < children.len(),
        !is_final_status(children[i].1),
    ensures
        active_children(children).contains(children[i].0),
{
    broadcast use vstd::seq_lib::group_filter_ensures;

    let keep = |child: (ThreadId, AgentStatus)| !is_final_status(child.1);
    let kept = children.filter(keep);
    assert(kept.contains(children[i]));
    let k = choose|k: int| 0 <= k < kept.len() && kept[k] == children[i];
    assert(active_children(children)[k] == children[i].0);
}

/// A child counts as active where it has not started, runs or was interrupted.
/// One more child adds itself at the end or nothing.
pub proof fn lemma_one_more_active_child(
    children: Seq<(ThreadId, AgentStatus)>,
    id: ThreadId,
    status: AgentStatus,
)
    ensures
        active_children(Seq::empty()).len() == 0,
        active_children(children.push((id, status))) == if status is PendingInit || status
            is Running || status is Interrupted {
            active_children(children).push(id)
        } else {
            active_children(children)
        },
{
    let keep = |child: (ThreadId, AgentStatus)| !is_final_status(child.1);
    let own = |child: (ThreadId, AgentStatus)| child.0;
    reveal(Seq::filter);
    children.lemma_filter_push((id, status), keep);
    if keep((id, status)) {
        assert(children.filter(keep).push((id, status)).map_values(own) =~= children.filter(
            keep,
        ).map_values(own).push(id));
    }
    assert(Seq::<(ThreadId, AgentStatus)>::empty().filter(keep)
        =~= Seq::<(ThreadId, AgentStatus)>::empty());
    assert(active_children(Seq::empty()) =~= Seq::<ThreadId>::empty());
}

/// The refusal of a wait names the parent and each child by its identity.
pub proof fn lemma_refusal_names_the_children(parent: ThreadId, active: Seq<ThreadId>, i: int)
    requires
        0 <= i < active.len(),
    ensures
        id_texts(active).len() == active.len(),
        id_texts(active)[i] == thread_id_text(active[i].bits),
        wake_enabled_wait_message(parent, active)
            == "wait is disabled for wake-enabled child agents by current configuration. These child threads already have wake_parent_on_completion enabled for parent "@
            + thread_id_text(parent.bits) + ": "@ + join(id_texts(active), ", "@)
            + ". End the current turn and rely on the automatic wake path instead, or set agents.wait_on_wake_enabled = \"allow\" / spawn the child with wake_parent_on_completion=false when you explicitly want polling."@,
{
}

/// A target whose status is final is reported with it, one that is not there as
/// not found, and one that still works not at all; each behind those before it.
pub proof fn lemma_one_more_look(
    looks: Seq<(ThreadId, StatusLook)>,
    id: ThreadId,
    status: AgentStatus,
)
    ensures
        looks_final(Seq::empty()).len() == 0,
        looks_final(looks.push((id, StatusLook::ThreadNotFound))) == looks_final(looks).push(
            (id, AgentStatus::NotFound),
        ),
        looks_final(looks.push((id, StatusLook::Failed))) == looks_final(looks),
        looks_final(looks.push((id, StatusLook::Status(status)))) == if status is PendingInit
            || status is Running || status is Interrupted {
            looks_final(looks)
        } else {
            looks_final(looks).push((id, status))
        },
{
    assert(looks.push((id, StatusLook::ThreadNotFound)).drop_last() =~= looks);
    assert(looks.push((id, StatusLook::Failed)).drop_last() =~= looks);
    assert(looks.push((id, StatusLook::Status(status))).drop_last() =~= looks);
}

/// An agent has a status in the report exactly when one was gathered, and it is
/// the last one that was.
pub proof fn lemma_last_status_counts(statuses: Seq<(ThreadId, AgentStatus)>, id: u128) -> (at:
    int)
    ensures
        statuses_by_id(statuses).contains_key(id) ==> {
            &&& 0 <= at < statuses.len()
            &&& statuses[at].0.bits == id
            &&& statuses_by_id(statuses)[id] == statuses[at].1
            &&& forall|j: int| at < j < statuses.len() ==> (#[trigger] statuses[j]).0.bits != id
        },
        !statuses_by_id(statuses).contains_key(id) ==> forall|j: int|
            0 <= j < statuses.len() ==> (#[trigger] statuses[j]).0.bits != id,
    decreases statuses.len(),
{
    if statuses.len() == 0 || statuses.last().0.bits == id {
        statuses.len() - 1
    } else {
        let front = statuses.drop_last();
        let at = lemma_last_status_counts(front, id);
        if statuses_by_id(statuses).contains_key(id) {
            assert forall|j: int| at < j < statuses.len() implies (
            #[trigger] statuses[j]).0.bits != id by {
                if j < front.len() {
                    assert(front[j] == statuses[j]);
                }
            }
        } else {
            assert forall|j: int| 0 <= j < statuses.len() implies (
            #[trigger] statuses[j]).0.bits != id by {
                if j < front.len() {
                    assert(front[j] == statuses[j]);
                }
            }
        }
        at
    }
}

/// An error and an agent that is not there count as failures, and nothing else
/// does.
pub proof fn lemma_what_counts_as_failure(status: AgentStatus, error: String)
    ensures
        is_failure(AgentStatus::Errored(error)),
        is_failure(AgentStatus::NotFound),
        status is Completed || status is Shutdown || status is Running || status is PendingInit
            || status is Interrupted ==> !is_failure(status),
{
}

/// The wait for one agent goes on while it works, ends with its status as soon
/// as that is final, and ends without one where no more changes will come and
/// the last status is not final.
pub proof fn lemma_wait_for_one_agent(thread_id: ThreadId, status: AgentStatus)
    ensures
        ({
            let working = status is PendingInit || status is Running || status is Interrupted;
            let seen = final_status_step(thread_id, FinalStatusEvent::Status(status));
            let last = final_status_step(thread_id, FinalStatusEvent::Closed(status));
            &&& working ==> seen is AwaitChange && last == FinalStatusStep::Done(None)
            &&& !working ==> seen == FinalStatusStep::Done(Some((thread_id, status))) && last
                == seen
        }),
{
}

/// A time to wait lies within the bounds, and is the one that was asked for;
/// where none was asked for it is the default. Any time within the bounds is
/// allowed.
pub proof fn lemma_times_to_wait(limits: WaitLimits, ms: i64)
    ensures
        allowed_timeout(limits, Some(ms)) is Some <==> limits.min_timeout_ms <= ms
            <= limits.max_timeout_ms,
        allowed_timeout(limits, Some(ms)) is Some ==> allowed_timeout(limits, Some(ms))->0 == ms,
        allowed_timeout(limits, None) == Some(limits.default_timeout_ms),
{
}

} // verus!
