//! A call of the wait tool from its targets to its result.
//!
//! The call alternates between asking the session and deciding: each answer is
//! handed to [`handle_wait_event`], which says what to do next.

use std::collections::HashMap;
use vstd::prelude::*;
use crate::agent::{is_final_status, AgentMetadata, AgentStatus, ThreadId};
use crate::wait_tool::{
    active_children, is_failure, lemma_active_wake_enabled_wait_refused, looks_final,
    receiver_agent, statuses_by_id, wait_after_looks, wait_after_wake_enabled, wait_for_activity,
    wait_outcome, wait_report, wake_enabled_wait_message, AgentWaitOnWakeEnabledBehavior,
    CollabAgentRef,
    CollabAgentToolCallStatus, CollectEvent, CollectPhase, Collection, InputQueueActivity,
    StatusLook, WaitAgentResult, WaitNext, WaitOutcome, WaitReport,
};

verus! {

/// What a wait returns once its end was shown.
#[derive(Clone, Copy, Debug, PartialEq, Eq, Structural)]
pub enum WaitEnd {
    Outcome(WaitOutcome),
    /// This target could not be looked at.
    TargetFailed(ThreadId),
}

/// How far a wait is.
#[derive(Debug)]
pub enum WaitState {
    /// The start is shown.
    Starting { timeout_ms: i64, agents: Vec<CollabAgentRef> },
    /// Any activity of the input queue is awaited.
    AwaitingActivity { agents: Vec<CollabAgentRef> },
    /// The wake-enabled ones among the targets are found out.
    AskingWakeEnabled { timeout_ms: i64, agents: Vec<CollabAgentRef> },
    /// The targets are looked at.
    Looking { timeout_ms: i64, agents: Vec<CollabAgentRef> },
    /// The status of a target that could not be looked at is asked for.
    AskingStatus { id: ThreadId, agents: Vec<CollabAgentRef> },
    /// Completions are collected.
    Collecting { collection: Collection, agents: Vec<CollabAgentRef> },
    /// The end is shown.
    Ending { end: WaitEnd },
}

/// What a wait hears.
#[derive(Debug)]
pub enum WaitEvent {
    /// The start or the end was shown.
    Shown,
    /// The activity that was pending, and the one before the deadline.
    Activity { pending: Option<InputQueueActivity>, later: Option<InputQueueActivity> },
    /// The targets that are wake-enabled, with their statuses.
    WakeEnabled(Vec<(ThreadId, AgentStatus)>),
    /// What came of looking at the targets.
    Looks(Vec<(ThreadId, StatusLook)>),
    Status(AgentStatus),
    Collected(CollectEvent),
}

/// What a wait does next.
pub enum WaitAction {
    /// Wait for any activity of the input queue, at most this long.
    AwaitActivity { timeout_ms: i64 },
    /// Find out which targets are wake-enabled, and their statuses.
    AskWakeEnabled,
    /// Look at the targets, one after the other.
    LookAtTargets,
    AskStatus(ThreadId),
    /// Wait for the first completion, at most this long.
    Collect { timeout_ms: i64 },
    /// Wait on for the first completion, for what is left of the time.
    KeepCollecting,
    /// Take a completion that is there already.
    TakeReady,
    /// Show the end.
    ShowEnd(WaitReport),
    Return(WaitAgentResult),
    /// Refuse the call.
    Reject(String),
    /// Fail with the error that looking at this target gave.
    FailTarget(ThreadId),
    /// What was heard does not belong to what was asked.
    Stop,
}

/// What is shown of a wait that ended with the given statuses.
pub open spec fn is_report(
    report: WaitReport,
    statuses: Map<u128, AgentStatus>,
    agents: Seq<CollabAgentRef>,
) -> bool {
    &&& report.agents_states@ == statuses
    &&& report.status == (if exists|id: u128| #[trigger]
        statuses.contains_key(id) && is_failure(statuses[id]) {
        CollabAgentToolCallStatus::Failed
    } else {
        CollabAgentToolCallStatus::Completed
    })
    &&& report.receiver_thread_ids@.no_duplicates()
    &&& forall|id: ThreadId| #[trigger]
        report.receiver_thread_ids@.contains(id) <==> statuses.contains_key(id.bits)
    &&& report.receiver_agents@ == agents.filter(
        |agent: CollabAgentRef| statuses.contains_key(agent.thread_id.bits),
    )
}

/// A wait ends with statuses: they are shown, and the outcome is kept.
pub open spec fn ends_with(
    next: Option<WaitState>,
    action: WaitAction,
    statuses: Seq<(ThreadId, AgentStatus)>,
    agents: Seq<CollabAgentRef>,
) -> bool {
    &&& next == Some(
        WaitState::Ending {
            end: WaitEnd::Outcome(
                if statuses.len() == 0 {
                    WaitOutcome::TimedOut
                } else {
                    WaitOutcome::MailboxActivity
                },
            ),
        },
    )
    &&& action matches WaitAction::ShowEnd(report) && is_report(
        report,
        statuses_by_id(statuses),
        agents,
    )
}

/// The first look that failed, of the target with the given identity.
pub open spec fn first_failed(looks: Seq<(ThreadId, StatusLook)>, id: ThreadId) -> bool {
    exists|i: int|
        0 <= i < looks.len() && (#[trigger] looks[i]).1 is Failed && looks[i].0 == id && forall|
            j: int,
        |
            0 <= j < i ==> (#[trigger] looks[j]).1 !is Failed
}

/// No look failed.
pub open spec fn none_failed(looks: Seq<(ThreadId, StatusLook)>) -> bool {
    forall|j: int| 0 <= j < looks.len() ==> (#[trigger] looks[j]).1 !is Failed
}

/// What a wait tells its caller about how it ended.
pub open spec fn is_wait_result(result: WaitAgentResult, outcome: WaitOutcome) -> bool {
    &&& result.message@ == (match outcome {
        WaitOutcome::MailboxActivity => "Wait completed."@,
        WaitOutcome::Steered => "Wait interrupted by new input."@,
        WaitOutcome::TimedOut => "Wait timed out."@,
    })
    &&& result.timed_out == (outcome is TimedOut)
}

/// How a wait without targets ends.
pub open spec fn activity_outcome(
    pending: Option<InputQueueActivity>,
    later: Option<InputQueueActivity>,
) -> WaitOutcome {
    match (pending, later) {
        (Some(InputQueueActivity::Mailbox), _) => WaitOutcome::MailboxActivity,
        (Some(InputQueueActivity::Steer), _) => WaitOutcome::Steered,
        (None, Some(InputQueueActivity::Mailbox)) => WaitOutcome::MailboxActivity,
        (None, Some(InputQueueActivity::Steer)) => WaitOutcome::Steered,
        (None, None) => WaitOutcome::TimedOut,
    }
}

/// A wait goes on after an answer about completions.
pub open spec fn collects(
    collection: Collection,
    agents: Vec<CollabAgentRef>,
    event: CollectEvent,
    next: Option<WaitState>,
    action: WaitAction,
) -> bool {
    match event {
        _ if collection.phase is Done => ends_with(next, action, collection.results@, agents@),
        CollectEvent::Completed(id, status) => {
            &&& action is TakeReady
            &&& next matches Some(WaitState::Collecting { collection: after, agents: same })
            &&& same == agents
            &&& after.phase is Drain
            &&& after.results@ == collection.results@.push((id, status))
        },
        CollectEvent::Gone => {
            &&& if collection.phase is Drain {
                action is TakeReady
            } else {
                action is KeepCollecting
            }
            &&& next matches Some(WaitState::Collecting { collection: after, agents: same })
            &&& same == agents
            &&& after.phase == collection.phase
            &&& after.results@ == collection.results@
        },
        CollectEvent::NoMore => ends_with(next, action, collection.results@, agents@),
    }
}

/// A wait goes on as it should.
pub open spec fn wait_step_ok(
    parent_thread_id: ThreadId,
    behavior: AgentWaitOnWakeEnabledBehavior,
    state: WaitState,
    event: WaitEvent,
    next: Option<WaitState>,
    action: WaitAction,
) -> bool {
    match (state, event) {
        (WaitState::Starting { timeout_ms, agents }, WaitEvent::Shown) => if agents@.len() == 0 {
            &&& next == Some(WaitState::AwaitingActivity { agents })
            &&& action == (WaitAction::AwaitActivity { timeout_ms })
        } else {
            &&& next == Some(WaitState::AskingWakeEnabled { timeout_ms, agents })
            &&& action is AskWakeEnabled
        },
        (
            WaitState::AwaitingActivity { agents },
            WaitEvent::Activity { pending, later },
        ) => {
            &&& next == Some(
                WaitState::Ending { end: WaitEnd::Outcome(activity_outcome(pending, later)) },
            )
            &&& action matches WaitAction::ShowEnd(report) && is_report(
                report,
                Map::empty(),
                agents@,
            )
        },
        (
            WaitState::AskingWakeEnabled { timeout_ms, agents },
            WaitEvent::WakeEnabled(children),
        ) => if behavior is Reject && active_children(children@).len() > 0 {
            &&& next is None
            &&& action matches WaitAction::Reject(message) && message@
                == wake_enabled_wait_message(parent_thread_id, active_children(children@))
        } else {
            &&& next == Some(WaitState::Looking { timeout_ms, agents })
            &&& action is LookAtTargets
        },
        (WaitState::Looking { timeout_ms, agents }, WaitEvent::Looks(looks)) => {
            if !none_failed(looks@) {
                &&& action matches WaitAction::AskStatus(id)
                &&& first_failed(looks@, id)
                &&& next == Some(WaitState::AskingStatus { id, agents })
            } else if looks_final(looks@).len() > 0 {
                ends_with(next, action, looks_final(looks@), agents@)
            } else {
                &&& action == (WaitAction::Collect { timeout_ms })
                &&& next matches Some(WaitState::Collecting { collection, agents: same })
                &&& same == agents
                &&& collection.phase is AwaitFirst
                &&& collection.results@.len() == 0
            }
        },
        (WaitState::AskingStatus { id, agents }, WaitEvent::Status(status)) => {
            &&& next == Some(WaitState::Ending { end: WaitEnd::TargetFailed(id) })
            &&& action matches WaitAction::ShowEnd(report) && is_report(
                report,
                Map::empty().insert(id.bits, status),
                agents@,
            )
        },
        (WaitState::Collecting { collection, agents }, WaitEvent::Collected(event)) => collects(
            collection,
            agents,
            event,
            next,
            action,
        ),
        (WaitState::Ending { end }, WaitEvent::Shown) => {
            &&& next is None
            &&& match end {
                WaitEnd::Outcome(outcome) => action matches WaitAction::Return(result)
                    && is_wait_result(result, outcome),
                WaitEnd::TargetFailed(id) => action == WaitAction::FailTarget(id),
            }
        },
        _ => next is None && action is Stop,
    }
}

/// The agents that are waited for: each target, with its names where it is
/// known.
pub fn begin_wait(timeout_ms: i64, targets: Vec<(ThreadId, Option<AgentMetadata>)>) -> (result:
    WaitState)
    ensures
        result matches WaitState::Starting { timeout_ms: kept, agents } && kept == timeout_ms
            && agents@.len() == targets@.len() && forall|i: int|
            0 <= i < agents@.len() ==> #[trigger] agents@[i] == (match targets@[i].1 {
                Some(metadata) => CollabAgentRef {
                    thread_id: targets@[i].0,
                    agent_nickname: metadata.agent_nickname,
                    agent_role: metadata.agent_role,
                },
                None => CollabAgentRef {
                    thread_id: targets@[i].0,
                    agent_nickname: None,
                    agent_role: None,
                },
            }),
{
    let mut agents: Vec<CollabAgentRef> = Vec::new();
    let mut i: usize = 0;
    while i < targets.len()
        invariant
            i <= targets.len(),
            agents@.len() == i,
            forall|k: int|
                0 <= k < i ==> #[trigger] agents@[k] == (match targets@[k].1 {
                    Some(metadata) => CollabAgentRef {
                        thread_id: targets@[k].0,
                        agent_nickname: metadata.agent_nickname,
                        agent_role: metadata.agent_role,
                    },
                    None => CollabAgentRef {
                        thread_id: targets@[k].0,
                        agent_nickname: None,
                        agent_role: None,
                    },
                }),
        decreases targets.len() - i,
    {
        let metadata = match &targets[i].1 {
            Some(metadata) => Some(metadata.clone()),
            None => None,
        };
        agents.push(receiver_agent(targets[i].0, metadata));
        i += 1;
    }
    WaitState::Starting { timeout_ms, agents }
}

/// Ends a wait with statuses.
fn end_with(statuses: &Vec<(ThreadId, AgentStatus)>, agents: &Vec<CollabAgentRef>) -> (result: (
    Option<WaitState>,
    WaitAction,
))
    ensures
        ends_with(result.0, result.1, statuses@, agents@),
{
    let (outcome, by_id) = wait_outcome(statuses);
    let report = wait_report(by_id, agents);
    (
        Some(WaitState::Ending { end: WaitEnd::Outcome(outcome) }),
        WaitAction::ShowEnd(report),
    )
}

/// Goes on with a wait. Without targets it waits for any activity of the input
/// queue. Else it is refused where the targets wake their parent anyway and
/// such waits are to be refused; the targets whose work is over are reported
/// at once; and where there are none, the first to complete, with those that
/// are complete by then. The result is the state to go on with, if the wait is
/// not over, and what is done next.
pub fn handle_wait_event(
    parent_thread_id: ThreadId,
    behavior: AgentWaitOnWakeEnabledBehavior,
    state: WaitState,
    event: WaitEvent,
) -> (result: (Option<WaitState>, WaitAction))
    ensures
        wait_step_ok(parent_thread_id, behavior, state, event, result.0, result.1),
{
    match (state, event) {
        (WaitState::Starting { timeout_ms, agents }, WaitEvent::Shown) => {
            if agents.len() == 0 {
                (
                    Some(WaitState::AwaitingActivity { agents }),
                    WaitAction::AwaitActivity { timeout_ms },
                )
            } else {
                (
                    Some(WaitState::AskingWakeEnabled { timeout_ms, agents }),
                    WaitAction::AskWakeEnabled,
                )
            }
        },
        (WaitState::AwaitingActivity { agents }, WaitEvent::Activity { pending, later }) => {
            let outcome = wait_for_activity(pending, later);
            let report = wait_report(HashMap::new(), &agents);
            (
                Some(WaitState::Ending { end: WaitEnd::Outcome(outcome) }),
                WaitAction::ShowEnd(report),
            )
        },
        (WaitState::AskingWakeEnabled { timeout_ms, agents }, WaitEvent::WakeEnabled(children)) =>
        match wait_after_wake_enabled(parent_thread_id, &children, behavior) {
            WaitNext::Reject(message) => (None, WaitAction::Reject(message)),
            _ => (Some(WaitState::Looking { timeout_ms, agents }), WaitAction::LookAtTargets),
        },
        (WaitState::Looking { timeout_ms, agents }, WaitEvent::Looks(looks)) =>
        match wait_after_looks(&looks) {
            WaitNext::Fail(id) => (
                Some(WaitState::AskingStatus { id, agents }),
                WaitAction::AskStatus(id),
            ),
            WaitNext::Report(finals) => end_with(&finals, &agents),
            _ => (
                Some(WaitState::Collecting { collection: Collection::new(), agents }),
                WaitAction::Collect { timeout_ms },
            ),
        },
        (WaitState::AskingStatus { id, agents }, WaitEvent::Status(status)) => {
            let mut by_id: HashMap<u128, AgentStatus> = HashMap::new();
            by_id.insert(id.bits, status);
            let report = wait_report(by_id, &agents);
            (
                Some(WaitState::Ending { end: WaitEnd::TargetFailed(id) }),
                WaitAction::ShowEnd(report),
            )
        },
        (WaitState::Collecting { collection, agents }, WaitEvent::Collected(event)) => {
            let mut collection = collection;
            collection.step(event);
            match collection.phase {
                CollectPhase::Done => end_with(&collection.results, &agents),
                CollectPhase::Drain => (
                    Some(WaitState::Collecting { collection, agents }),
                    WaitAction::TakeReady,
                ),
                CollectPhase::AwaitFirst => (
                    Some(WaitState::Collecting { collection, agents }),
                    WaitAction::KeepCollecting,
                ),
            }
        },
        (WaitState::Ending { end }, WaitEvent::Shown) => match end {
            WaitEnd::Outcome(outcome) => (
                None,
                WaitAction::Return(WaitAgentResult::from_outcome(outcome)),
            ),
            WaitEnd::TargetFailed(id) => (None, WaitAction::FailTarget(id)),
        },
        _ => (None, WaitAction::Stop),
    }
}

/// A wait without targets ends with the activity that was pending, whatever
/// comes later; with the one that comes later where none was pending; and by
/// running out of time where none comes. A message completes it, and input of
/// the user interrupts it.
pub proof fn lemma_activity_ends_a_wait(
    activity: InputQueueActivity,
    later: Option<InputQueueActivity>,
)
    ensures
        activity_outcome(Some(activity), later) == activity_outcome(Some(activity), None),
        activity_outcome(None, Some(activity)) == activity_outcome(Some(activity), None),
        activity is Mailbox ==> activity_outcome(Some(activity), later) is MailboxActivity,
        activity is Steer ==> activity_outcome(Some(activity), later) is Steered,
        activity_outcome(None, None) is TimedOut,
{
}

/// A wait is refused exactly when a target that wakes its parent still works
/// and such waits are to be refused; at no other point.
pub proof fn lemma_when_a_wait_is_refused(
    parent_thread_id: ThreadId,
    behavior: AgentWaitOnWakeEnabledBehavior,
    state: WaitState,
    event: WaitEvent,
    next: Option<WaitState>,
    action: WaitAction,
)
    requires
        wait_step_ok(parent_thread_id, behavior, state, event, next, action),
    ensures
        action is Reject ==> state is AskingWakeEnabled && event is WakeEnabled && behavior
            is Reject && next is None,
        state is AskingWakeEnabled && event is WakeEnabled ==> (action is Reject <==> behavior
            is Reject && exists|i: int|
            0 <= i < event->WakeEnabled_0@.len() && !is_final_status(
                (#[trigger] event->WakeEnabled_0@[i]).1,
            )),
        state is AskingWakeEnabled && event is WakeEnabled && !(action is Reject) ==> action
            is LookAtTargets && next == Some(
            WaitState::Looking {
                timeout_ms: state->AskingWakeEnabled_timeout_ms,
                agents: state->AskingWakeEnabled_agents,
            },
        ),
{
    if state is AskingWakeEnabled && event is WakeEnabled {
        let children = event->WakeEnabled_0@;
        let keep = |child: (ThreadId, AgentStatus)| !is_final_status(child.1);
        let picked = children.filter(keep);
        if exists|i: int| 0 <= i < children.len() && !is_final_status((#[trigger] children[i]).1) {
            let i = choose|i: int|
                0 <= i < children.len() && !is_final_status((#[trigger] children[i]).1);
            lemma_active_wake_enabled_wait_refused(children, i);
        }
        if active_children(children).len() > 0 {
            children.lemma_filter_pred(keep, 0);
            assert(picked.contains(picked[0]));
            children.lemma_filter_contains_rev(keep, picked[0]);
            let i = choose|i: int| 0 <= i < children.len() && children[i] == picked[0];
            assert(!is_final_status(children[i].1));
        }
    }
}

/// The targets whose work is over are reported at once. Only where there are
/// none, and every one could be looked at, is waited, as long as was asked for.
pub proof fn lemma_finished_targets_end_a_wait(
    parent_thread_id: ThreadId,
    behavior: AgentWaitOnWakeEnabledBehavior,
    timeout_ms: i64,
    agents: Vec<CollabAgentRef>,
    looks: Vec<(ThreadId, StatusLook)>,
    next: Option<WaitState>,
    action: WaitAction,
)
    requires
        wait_step_ok(
            parent_thread_id,
            behavior,
            WaitState::Looking { timeout_ms, agents },
            WaitEvent::Looks(looks),
            next,
            action,
        ),
    ensures
        action is AskStatus <==> exists|i: int|
            0 <= i < looks@.len() && (#[trigger] looks@[i]).1 is Failed,
        none_failed(looks@) ==> (action is Collect <==> looks_final(looks@).len() == 0),
        none_failed(looks@) && looks_final(looks@).len() > 0 ==> action is ShowEnd && action
            ->ShowEnd_0.agents_states@ == statuses_by_id(looks_final(looks@)) && next == Some(
            WaitState::Ending { end: WaitEnd::Outcome(WaitOutcome::MailboxActivity) },
        ),
        action matches WaitAction::Collect { timeout_ms: kept } ==> kept == timeout_ms,
        action matches WaitAction::AskStatus(id) ==> exists|i: int|
            0 <= i < looks@.len() && (#[trigger] looks@[i]).1 is Failed && looks@[i].0 == id,
{
    if exists|i: int| 0 <= i < looks@.len() && (#[trigger] looks@[i]).1 is Failed {
        let i = choose|i: int| 0 <= i < looks@.len() && (#[trigger] looks@[i]).1 is Failed;
        assert(!none_failed(looks@));
    }
}

/// While completions are collected each one is kept behind those before it, and
/// after the first one the wait takes only what is there already. When nothing
/// more comes, all of them are reported; the wait ran out of time where there
/// are none.
pub proof fn lemma_completions_are_collected(
    collection: Collection,
    agents: Vec<CollabAgentRef>,
    event: CollectEvent,
    next: Option<WaitState>,
    action: WaitAction,
)
    requires
        collects(collection, agents, event, next, action),
        !(collection.phase is Done),
    ensures
        event matches CollectEvent::Completed(id, status) ==> action is TakeReady && next is Some
            && next->0 is Collecting && next->0->collection.results@ == collection.results@.push(
            (id, status),
        ) && next->0->collection.phase is Drain && next->0->Collecting_agents == agents,
        event is Gone ==> next is Some && next->0 is Collecting && next->0->collection.results@
            == collection.results@ && next->0->collection.phase == collection.phase
            && next->0->Collecting_agents == agents && (action is TakeReady <==> collection.phase
            is Drain) && (action is KeepCollecting <==> collection.phase is AwaitFirst),
        event is NoMore ==> action is ShowEnd && action->ShowEnd_0.agents_states@
            == statuses_by_id(collection.results@) && next == Some(
            WaitState::Ending {
                end: WaitEnd::Outcome(
                    if collection.results@.len() == 0 {
                        WaitOutcome::TimedOut
                    } else {
                        WaitOutcome::MailboxActivity
                    },
                ),
            },
        ),
{
}

/// A report counts as failed exactly when an agent ended with an error or was
/// not there. It names the agents with a status, and no others.
pub proof fn lemma_what_is_reported(
    report: WaitReport,
    statuses: Map<u128, AgentStatus>,
    agents: Seq<CollabAgentRef>,
    agent: CollabAgentRef,
)
    requires
        is_report(report, statuses, agents),
    ensures
        report.agents_states@ == statuses,
        report.status is Failed <==> exists|id: u128| #[trigger]
            statuses.contains_key(id) && (statuses[id] is Errored || statuses[id] is NotFound),
        report.status is Failed || report.status is Completed,
        forall|id: ThreadId| #[trigger]
            report.receiver_thread_ids@.contains(id) <==> statuses.contains_key(id.bits),
        report.receiver_agents@.contains(agent) <==> agents.contains(agent)
            && statuses.contains_key(agent.thread_id.bits),
{
    let keep = |agent: CollabAgentRef| statuses.contains_key(agent.thread_id.bits);
    let kept = agents.filter(keep);
    if kept.contains(agent) {
        let i = choose|i: int| 0 <= i < kept.len() && kept[i] == agent;
        agents.lemma_filter_pred(keep, i);
        agents.lemma_filter_contains_rev(keep, agent);
    }
    if agents.contains(agent) && keep(agent) {
        let i = choose|i: int| 0 <= i < agents.len() && agents[i] == agent;
        agents.lemma_filter_contains(keep, i);
    }
}

/// A wait that begins without targets waits for activity, one with targets asks
/// which of them wake their parent; either keeps how long it is to wait. In the
/// end it tells how it went, or fails with the target that could not be looked
/// at.
pub proof fn lemma_begin_and_end_of_a_wait(
    parent_thread_id: ThreadId,
    behavior: AgentWaitOnWakeEnabledBehavior,
    state: WaitState,
    next: Option<WaitState>,
    action: WaitAction,
)
    requires
        wait_step_ok(parent_thread_id, behavior, state, WaitEvent::Shown, next, action),
    ensures
        state matches WaitState::Starting { timeout_ms, agents } ==> (agents@.len() == 0
            ==> action == (WaitAction::AwaitActivity { timeout_ms })) && (agents@.len() > 0
            ==> action is AskWakeEnabled && next == Some(
            WaitState::AskingWakeEnabled { timeout_ms, agents },
        )),
        state matches WaitState::Ending { end: WaitEnd::TargetFailed(id) } ==> action
            == WaitAction::FailTarget(id) && next is None,
        state matches WaitState::Ending { end: WaitEnd::Outcome(outcome) } ==> action is Return
            && next is None && (action->Return_0.timed_out <==> outcome is TimedOut) && (outcome
            is MailboxActivity ==> action->Return_0.message@ == "Wait completed."@) && (outcome
            is Steered ==> action->Return_0.message@ == "Wait interrupted by new input."@) && (
        outcome is TimedOut ==> action->Return_0.message@ == "Wait timed out."@),
{
}

/// A wait fails with the first target that could not be looked at: every target
/// before it could be.
pub proof fn lemma_first_failed_target(looks: Seq<(ThreadId, StatusLook)>, id: ThreadId) -> (at:
    int)
    requires
        first_failed(looks, id),
    ensures
        0 <= at < looks.len(),
        looks[at].0 == id,
        looks[at].1 is Failed,
        forall|j: int| 0 <= j < at ==> !((#[trigger] looks[j]).1 is Failed),
{
    choose|i: int|
        0 <= i < looks.len() && (#[trigger] looks[i]).1 is Failed && looks[i].0 == id && forall|
            j: int,
        |
            0 <= j < i ==> (#[trigger] looks[j]).1 !is Failed
}

} // verus!
