//! Telling a parent of a child's completion: whether it is owed, by which
//! route it goes, and what is recorded of it.

use vstd::prelude::*;
use crate::agent::{
    is_final, is_final_status, last_slash, lemma_last_slash, path_within, root_path, AgentPath,
    AgentStatus, ThreadId,
};
use crate::communication::{
    AgentCommunicationContext, AgentCommunicationKind, InterAgentCommunication,
};
use crate::wake::{
    allows_rearm, is_blocked, is_in_flight, is_notified, is_pending, is_ticket_for,
    overtaken_notice, reached_only, with_next_generation, with_policy, AgentWakeDescendantPolicy,
    NoticeTicket, ParentWakeSubscription, WakeState,
};

verus! {

/// A notice is owed for a generation of a subscription, and if so whether it
/// wakes the parent: the status is final, the generation is the current one, it
/// has not been told yet, and nobody is about to tell it.
pub open spec fn owed_by(
    subscription: ParentWakeSubscription,
    generation: u64,
    status: AgentStatus,
) -> Option<bool> {
    if is_final_status(status) && subscription.completion_watcher_generation == generation
        && !is_notified(subscription, generation) && !is_in_flight(subscription, generation) {
        Some(subscription.wake_parent_on_completion)
    } else {
        None
    }
}

/// The subscription while the notice of a generation is on its way.
pub open spec fn with_notice_begun(
    subscription: ParentWakeSubscription,
    generation: u64,
) -> ParentWakeSubscription {
    ParentWakeSubscription { notice_in_flight: Some(generation), ..subscription }
}

/// What came of telling a completion.
#[derive(Clone, Copy, Debug, PartialEq, Eq, Structural)]
pub enum TellOutcome {
    Delivered,
    /// The parent could not be reached.
    Failed,
    /// There was nothing to say.
    NothingToTell,
}

/// The subscription after a completion was told, or could not be. Only the
/// current generation is recorded, and only while its notice is on its way.
pub open spec fn with_notice_finished(
    subscription: ParentWakeSubscription,
    generation: u64,
    outcome: TellOutcome,
) -> ParentWakeSubscription {
    if subscription.completion_watcher_generation != generation || !is_in_flight(
        subscription,
        generation,
    ) {
        subscription
    } else if outcome is Delivered {
        ParentWakeSubscription {
            last_notified_generation: Some(generation),
            notice_in_flight: None,
            ..subscription
        }
    } else {
        ParentWakeSubscription { notice_in_flight: None, ..subscription }
    }
}

/// A notice that failed stays with its teller: its generation was overtaken
/// meanwhile, so nobody else can take it on.
pub open spec fn stays_with_teller(
    subscription: ParentWakeSubscription,
    generation: u64,
    outcome: TellOutcome,
) -> bool {
    outcome is Failed && subscription.completion_watcher_generation != generation
}

/// Whether a completion of a child is to be told, and if so whether it wakes
/// the parent.
pub open spec fn notice_owed(
    subscriptions: Map<u128, ParentWakeSubscription>,
    child: ThreadId,
    generation: u64,
    status: AgentStatus,
) -> Option<bool> {
    if subscriptions.contains_key(child.bits) {
        owed_by(subscriptions[child.bits], generation, status)
    } else {
        None
    }
}

/// The subscriptions after a completion was told, or could not be.
pub open spec fn notice_recorded(
    subscriptions: Map<u128, ParentWakeSubscription>,
    child: ThreadId,
    generation: u64,
    outcome: TellOutcome,
) -> Map<u128, ParentWakeSubscription> {
    if subscriptions.contains_key(child.bits) {
        subscriptions.insert(
            child.bits,
            with_notice_finished(subscriptions[child.bits], generation, outcome),
        )
    } else {
        subscriptions
    }
}

/// What becomes of a notice once it is known what came of telling it.
#[derive(Debug)]
pub enum NoticeEnd {
    /// Nothing more is to be done.
    Settled,
    /// It could not be delivered, and is open to whoever takes it on next.
    Released,
    /// It could not be delivered, and this teller is to try again.
    Kept(NoticeTicket),
}

impl WakeState {
    /// Takes on the telling of a completion, if it is owed and nobody is about
    /// to tell it.
    pub fn begin_completion_notice(
        &mut self,
        child_thread_id: ThreadId,
        completion_watcher_generation: u64,
        status: &AgentStatus,
    ) -> (result: Option<NoticeTicket>)
        ensures
            is_ticket_for(
                result,
                notice_owed(
                    old(self).subscriptions@,
                    child_thread_id,
                    completion_watcher_generation,
                    *status,
                ),
                child_thread_id,
                completion_watcher_generation,
            ),
            final(self).subscriptions@ == (if result is Some {
                old(self).subscriptions@.insert(
                    child_thread_id.bits,
                    with_notice_begun(
                        old(self).subscriptions@[child_thread_id.bits],
                        completion_watcher_generation,
                    ),
                )
            } else {
                old(self).subscriptions@
            }),
            final(self).preferences@ == old(self).preferences@,
            old(self).well_formed() ==> final(self).well_formed(),
    {
        if !is_final(status) {
            return None;
        }
        let mut subscription = match self.subscriptions.get(&child_thread_id.bits) {
            Some(subscription) => subscription.clone(),
            None => {
                return None;
            },
        };
        let told = match subscription.last_notified_generation {
            Some(generation) => generation == completion_watcher_generation,
            None => false,
        };
        let in_flight = match subscription.notice_in_flight {
            Some(generation) => generation == completion_watcher_generation,
            None => false,
        };
        if subscription.completion_watcher_generation != completion_watcher_generation || told
            || in_flight {
            return None;
        }
        let ticket = NoticeTicket::issue(
            child_thread_id,
            completion_watcher_generation,
            subscription.wake_parent_on_completion,
        );
        subscription.notice_in_flight = Some(completion_watcher_generation);
        self.subscriptions.insert(child_thread_id.bits, subscription);
        Some(ticket)
    }

    /// Records what came of telling a completion. A notice that failed is open
    /// again, or stays with its teller where its generation was overtaken.
    /// Nothing is owed for a child that was forgotten.
    pub fn finish_completion_notice(&mut self, ticket: NoticeTicket, outcome: TellOutcome) -> (result:
        NoticeEnd)
        ensures
            ({
                let child = ticket.of_child();
                let generation = ticket.of_generation();
                let before = old(self).subscriptions@;
                &&& final(self).subscriptions@ == notice_recorded(
                    before,
                    child,
                    generation,
                    outcome,
                )
                &&& if !before.contains_key(child.bits) || !(outcome is Failed) {
                    result is Settled
                } else if stays_with_teller(before[child.bits], generation, outcome) {
                    result == NoticeEnd::Kept(ticket)
                } else {
                    result is Released
                }
            }),
            final(self).preferences@ == old(self).preferences@,
            old(self).well_formed() ==> final(self).well_formed(),
    {
        let child = ticket.child_thread_id();
        let generation: u64 = ticket.completion_watcher_generation();
        let failed = matches!(outcome, TellOutcome::Failed);
        let mut subscription = match self.subscriptions.get(&child.bits) {
            Some(subscription) => subscription.clone(),
            None => {
                return NoticeEnd::Settled;
            },
        };
        let overtaken = subscription.completion_watcher_generation != generation;
        let in_flight = match subscription.notice_in_flight {
            Some(taken) => taken == generation,
            None => false,
        };
        if !overtaken && in_flight {
            subscription.notice_in_flight = None;
            if matches!(outcome, TellOutcome::Delivered) {
                subscription.last_notified_generation = Some(generation);
            }
        }
        self.subscriptions.insert(child.bits, subscription);
        if !failed {
            NoticeEnd::Settled
        } else if overtaken {
            NoticeEnd::Kept(ticket)
        } else {
            NoticeEnd::Released
        }
    }

    /// The notice that a watcher is to tell next: the one that it still holds
    /// after a try that failed, else the one of its generation, if that is
    /// owed. Where there is none the watcher is done.
    pub fn retry_notify_completion_to_parent(
        &mut self,
        kept: Option<NoticeTicket>,
        child_thread_id: ThreadId,
        completion_watcher_generation: u64,
        status: &AgentStatus,
    ) -> (result: Option<NoticeTicket>)
        ensures
            match kept {
                Some(ticket) => {
                    &&& result == Some(ticket)
                    &&& final(self).subscriptions@ == old(self).subscriptions@
                },
                None => {
                    &&& is_ticket_for(
                        result,
                        notice_owed(
                            old(self).subscriptions@,
                            child_thread_id,
                            completion_watcher_generation,
                            *status,
                        ),
                        child_thread_id,
                        completion_watcher_generation,
                    )
                    &&& final(self).subscriptions@ == (if result is Some {
                        old(self).subscriptions@.insert(
                            child_thread_id.bits,
                            with_notice_begun(
                                old(self).subscriptions@[child_thread_id.bits],
                                completion_watcher_generation,
                            ),
                        )
                    } else {
                        old(self).subscriptions@
                    })
                },
            },
            final(self).preferences@ == old(self).preferences@,
            old(self).well_formed() ==> final(self).well_formed(),
    {
        match kept {
            Some(ticket) => Some(ticket),
            None => self.begin_completion_notice(
                child_thread_id,
                completion_watcher_generation,
                status,
            ),
        }
    }
}

/// Which generation of the agent tools a thread speaks.
#[derive(Clone, Copy, Debug, PartialEq, Eq, Structural)]
pub enum MultiAgentVersion {
    V1,
    V2,
}

/// What the thread manager knows of the child when a notice goes out.
#[derive(Clone, Copy, Debug, PartialEq, Eq, Structural)]
pub enum ChildLookup {
    /// The thread manager is gone.
    ManagerGone,
    /// The child's thread is not loaded.
    NotLoaded,
    /// The child's thread is loaded; its version, where it has one.
    Loaded(Option<MultiAgentVersion>),
}

/// How a notice reaches the parent.
#[derive(Debug)]
pub enum NoticeRoute {
    /// Not at all for now.
    Unavailable,
    /// It has no one to reach.
    Nobody,
    /// As a message from the child's path to its parent's.
    InterAgent { child_agent_path: AgentPath, parent_agent_path: AgentPath },
    /// As a message put into the parent's conversation.
    Contextual,
}

/// A child with a path that speaks, or may speak, the second version of the
/// agent tools.
pub open spec fn speaks_by_path(lookup: ChildLookup, path: Option<AgentPath>) -> bool {
    path is Some && (lookup is NotLoaded || lookup == ChildLookup::Loaded(
        Some(MultiAgentVersion::V2),
    ))
}

/// How a notice reaches the parent.
pub fn notice_route(lookup: ChildLookup, child_agent_path: Option<&AgentPath>) -> (result:
    NoticeRoute)
    ensures
        match result {
            NoticeRoute::Unavailable => lookup is ManagerGone,
            NoticeRoute::Nobody => lookup !is ManagerGone && child_agent_path is Some
                && speaks_by_path(lookup, Some(*child_agent_path->0)) && child_agent_path->0@
                == root_path(),
            NoticeRoute::InterAgent { child_agent_path: child, parent_agent_path: parent } => {
                &&& lookup !is ManagerGone
                &&& child_agent_path matches Some(path)
                &&& speaks_by_path(lookup, Some(*path))
                &&& path@ != root_path()
                &&& child == *path
                &&& parent@ == path@.take(last_slash(path@))
            },
            NoticeRoute::Contextual => lookup !is ManagerGone && (child_agent_path is None
                || !speaks_by_path(lookup, Some(*child_agent_path->0))),
        },
{
    let by_path = match lookup {
        ChildLookup::ManagerGone => {
            return NoticeRoute::Unavailable;
        },
        ChildLookup::NotLoaded => true,
        ChildLookup::Loaded(Some(MultiAgentVersion::V2)) => true,
        ChildLookup::Loaded(_) => false,
    };
    match child_agent_path {
        Some(path) if by_path => match path.parent() {
            Some(parent_agent_path) => NoticeRoute::InterAgent {
                child_agent_path: path.clone(),
                parent_agent_path,
            },
            None => NoticeRoute::Nobody,
        },
        _ => NoticeRoute::Contextual,
    }
}

/// The message and its context that tell a parent of a child's completion.
pub fn completion_communication(
    child_thread_id: ThreadId,
    child_agent_path: AgentPath,
    parent_agent_path: AgentPath,
    message: String,
    wake_parent_on_completion: bool,
) -> (result: (InterAgentCommunication, AgentCommunicationContext))
    ensures
        result.0.author == child_agent_path,
        result.0.recipient == parent_agent_path,
        result.0.other_recipients@.len() == 0,
        result.0.content == message,
        result.0.encrypted_content is None,
        result.0.trigger_turn == wake_parent_on_completion,
        result.1 == (AgentCommunicationContext {
            kind: AgentCommunicationKind::Result,
            sender_thread_id: child_thread_id,
        }),
{
    (
        InterAgentCommunication::new(
            child_agent_path,
            parent_agent_path,
            Vec::new(),
            message,
            wake_parent_on_completion,
        ),
        AgentCommunicationContext {
            kind: AgentCommunicationKind::Result,
            sender_thread_id: child_thread_id,
        },
    )
}

/// Whether the parent's thread is there for a notice, or can be brought back.
#[derive(Clone, Copy, Debug, PartialEq, Eq, Structural)]
pub enum ParentLoad {
    Loaded,
    Unavailable,
    /// It has to be reloaded with the child's configuration first.
    Reload,
}

/// What to do about the parent's thread before a notice goes to it.
pub fn ensure_completion_parent_loaded(
    manager_available: bool,
    parent_loaded: bool,
    child_loaded: bool,
) -> (result: ParentLoad)
    ensures
        result == (if !manager_available {
            ParentLoad::Unavailable
        } else if parent_loaded {
            ParentLoad::Loaded
        } else if child_loaded {
            ParentLoad::Reload
        } else {
            ParentLoad::Unavailable
        }),
{
    if !manager_available {
        return ParentLoad::Unavailable;
    }
    if parent_loaded {
        return ParentLoad::Loaded;
    }
    if !child_loaded {
        return ParentLoad::Unavailable;
    }
    ParentLoad::Reload
}

/// What to do next with a message for the parent's conversation.
#[derive(Debug)]
pub enum ContextualAction {
    /// Nothing more; whether the message was delivered.
    Done(bool),
    /// Put the message into the conversation without starting a turn.
    InjectWithoutTurn(String),
    /// Hand it to the running turn, if one runs.
    InjectIfRunning(String),
    /// Start a turn with it, if none runs.
    StartTurnIfIdle(String),
    /// Put it into the conversation as it is.
    InjectItems(String),
}

/// What has been tried so far with a message for the parent's conversation.
#[derive(Clone, Copy, Debug, PartialEq, Eq, Structural)]
pub enum ContextualTried {
    Nothing { parent_available: bool, trigger_turn: bool },
    InjectedWithoutTurn,
    InjectIfRunning { accepted: bool },
    StartTurnIfIdle { accepted: bool },
    InjectedItems,
}

/// What to do next with a message for the parent's conversation: without a
/// wake it is put there quietly; with one it joins the running turn, else
/// starts one, else is put there as it is.
pub open spec fn contextual_next(tried: ContextualTried, message: String) -> ContextualAction {
    match tried {
        ContextualTried::Nothing { parent_available, trigger_turn } => if !parent_available {
            ContextualAction::Done(false)
        } else if !trigger_turn {
            ContextualAction::InjectWithoutTurn(message)
        } else {
            ContextualAction::InjectIfRunning(message)
        },
        ContextualTried::InjectedWithoutTurn => ContextualAction::Done(true),
        ContextualTried::InjectIfRunning { accepted } => if accepted {
            ContextualAction::Done(true)
        } else {
            ContextualAction::StartTurnIfIdle(message)
        },
        ContextualTried::StartTurnIfIdle { accepted } => if accepted {
            ContextualAction::Done(true)
        } else {
            ContextualAction::InjectItems(message)
        },
        ContextualTried::InjectedItems => ContextualAction::Done(true),
    }
}

/// What to do next with a message for the parent's conversation.
pub fn notify_parent_with_contextual_message(tried: ContextualTried, message: String) -> (result:
    ContextualAction)
    ensures
        result == contextual_next(tried, message),
{
    match tried {
        ContextualTried::Nothing { parent_available, trigger_turn } => {
            if !parent_available {
                ContextualAction::Done(false)
            } else if !trigger_turn {
                ContextualAction::InjectWithoutTurn(message)
            } else {
                ContextualAction::InjectIfRunning(message)
            }
        },
        ContextualTried::InjectIfRunning { accepted: false } => ContextualAction::StartTurnIfIdle(
            message,
        ),
        ContextualTried::StartTurnIfIdle { accepted: false } => ContextualAction::InjectItems(
            message,
        ),
        _ => ContextualAction::Done(true),
    }
}

/// What occupies a thread or is about to.
#[derive(Clone, Copy, Debug, PartialEq, Eq, Structural)]
pub struct TurnActivity {
    pub active_turn: bool,
    pub trigger_turn_mailbox_items: bool,
    pub pending_input: bool,
}

/// A thread has a turn, or input that will start one.
pub open spec fn is_occupied(activity: Option<TurnActivity>) -> bool {
    activity matches Some(activity) && (activity.active_turn || activity.trigger_turn_mailbox_items
        || activity.pending_input)
}

/// Whether a child has a turn, or input that will start one. A thread that
/// is not there has neither.
pub fn child_has_scheduled_or_active_turn(activity: Option<TurnActivity>) -> (result: bool)
    ensures
        result == is_occupied(activity),
{
    match activity {
        Some(activity) => activity.active_turn || activity.trigger_turn_mailbox_items
            || activity.pending_input,
        None => false,
    }
}

/// A descendant still works, or is about to.
pub open spec fn is_active_descendant(descendant: (AgentStatus, Option<TurnActivity>)) -> bool {
    !is_final_status(descendant.0) || is_occupied(descendant.1)
}

/// Whether one of a thread's live descendants still works. Where they cannot
/// be listed, none counts.
pub fn has_active_descendants(descendants: Option<&Vec<(AgentStatus, Option<TurnActivity>)>>) -> (result:
    bool)
    ensures
        result <==> (descendants matches Some(list) && exists|i: int|
            0 <= i < list@.len() && is_active_descendant(#[trigger] list@[i])),
{
    match descendants {
        Some(list) => {
            let mut i: usize = 0;
            while i < list.len()
                invariant
                    i <= list.len(),
                    forall|j: int| 0 <= j < i ==> !is_active_descendant(#[trigger] list@[j]),
                    descendants == Some(list),
                decreases list.len() - i,
            {
                if !is_final(&list[i].0) || child_has_scheduled_or_active_turn(list[i].1) {
                    assert(is_active_descendant(list@[i as int]));
                    assert(descendants->0@ == list@);
                    assert(exists|k: int|
                        0 <= k < list@.len() && is_active_descendant(#[trigger] list@[k]));
                    return true;
                }
                i += 1;
            }
            false
        },
        None => false,
    }
}

/// A notice that is ready to go out.
#[derive(Debug)]
pub enum Delivery {
    InterAgent { child_agent_path: AgentPath, parent_agent_path: AgentPath, message: String },
    Contextual { message: String },
}

/// How far the telling of a completion is. It wakes the parent or not, as was
/// owed at the start.
#[derive(Debug)]
pub enum NoticeState {
    /// The child's thread is looked up.
    LookingUp,
    /// The message to the parent's path is written.
    WritingInterAgent {
        child_agent_path: AgentPath,
        parent_agent_path: AgentPath,
        child_loaded: bool,
    },
    /// The message for the parent's conversation is written.
    WritingContextual { child_loaded: bool },
    /// Whether the parent's thread is there is found out.
    FindingParent { delivery: Delivery, child_loaded: bool },
    /// The parent's thread is reloaded.
    ReloadingParent { delivery: Delivery },
    /// The notice is on its way.
    Sending,
}

/// What the telling of a completion hears.
#[derive(Debug)]
pub enum NoticeEvent {
    Child(ChildLookup),
    /// The message, if there is anything to say.
    Written(Option<String>),
    Parent { manager_available: bool, parent_loaded: bool },
    Reloaded(bool),
    Sent(bool),
}

/// What the telling of a completion does next.
#[derive(Debug)]
pub enum NoticeStep {
    /// Look the child's thread up.
    LookUpChild,
    /// Write the message to the parent's path, about the child's.
    WriteInterAgent,
    /// Write the message for the parent's conversation.
    WriteContextual,
    /// Find out whether the parent's thread is there.
    FindParent,
    ReloadParent,
    /// Send this to the parent's thread.
    SendInterAgent(InterAgentCommunication, AgentCommunicationContext),
    /// Put this into the parent's conversation, waking it or not.
    SendContextual { message: String, trigger_turn: bool },
    /// Record whether the notice was delivered.
    Record { delivered: bool },
    /// Nothing was to be told after all; the notice is settled.
    Settled,
}

/// What a delivery becomes on its way.
pub open spec fn is_send(
    step: NoticeStep,
    delivery: Delivery,
    child_thread_id: ThreadId,
    wake: bool,
) -> bool {
    match delivery {
        Delivery::InterAgent { child_agent_path, parent_agent_path, message } => {
            &&& step matches NoticeStep::SendInterAgent(communication, context)
            &&& communication.author == child_agent_path
            &&& communication.recipient == parent_agent_path
            &&& communication.other_recipients@.len() == 0
            &&& communication.content == message
            &&& communication.encrypted_content is None
            &&& communication.trigger_turn == wake
            &&& context == (AgentCommunicationContext {
                kind: AgentCommunicationKind::Result,
                sender_thread_id: child_thread_id,
            })
        },
        Delivery::Contextual { message } => step == (NoticeStep::SendContextual {
            message,
            trigger_turn: wake,
        }),
    }
}

fn send_step(delivery: Delivery, child_thread_id: ThreadId, wake: bool) -> (result: NoticeStep)
    ensures
        is_send(result, delivery, child_thread_id, wake),
{
    match delivery {
        Delivery::InterAgent { child_agent_path, parent_agent_path, message } => {
            let (communication, context) = completion_communication(
                child_thread_id,
                child_agent_path,
                parent_agent_path,
                message,
                wake,
            );
            NoticeStep::SendInterAgent(communication, context)
        },
        Delivery::Contextual { message } => NoticeStep::SendContextual {
            message,
            trigger_turn: wake,
        },
    }
}

/// The telling of a completion goes on as it should.
pub open spec fn notice_step_ok(
    state: NoticeState,
    event: NoticeEvent,
    child_thread_id: ThreadId,
    child_agent_path: Option<AgentPath>,
    wake: bool,
    next: Option<NoticeState>,
    step: NoticeStep,
) -> bool {
    match (state, event) {
        (NoticeState::LookingUp, NoticeEvent::Child(lookup)) => if lookup is ManagerGone {
            next is None && step == (NoticeStep::Record { delivered: false })
        } else if speaks_by_path(lookup, child_agent_path) {
            if child_agent_path->0@ == root_path() {
                next is None && step == (NoticeStep::Record { delivered: true })
            } else {
                &&& step is WriteInterAgent
                &&& next matches Some(
                    NoticeState::WritingInterAgent {
                        child_agent_path: child,
                        parent_agent_path: parent,
                        child_loaded,
                    },
                )
                &&& child == child_agent_path->0
                &&& parent@ == child@.take(last_slash(child@))
                &&& child_loaded == (lookup is Loaded)
            }
        } else {
            step is WriteContextual && next == Some(
                NoticeState::WritingContextual { child_loaded: lookup is Loaded },
            )
        },
        (
            NoticeState::WritingInterAgent { child_agent_path, parent_agent_path, child_loaded },
            NoticeEvent::Written(message),
        ) => match message {
            None => next is None && step is Settled,
            Some(message) => step is FindParent && next == Some(
                NoticeState::FindingParent {
                    delivery: Delivery::InterAgent { child_agent_path, parent_agent_path, message },
                    child_loaded,
                },
            ),
        },
        (
            NoticeState::WritingContextual { child_loaded },
            NoticeEvent::Written(Some(message)),
        ) => step is FindParent && next == Some(
            NoticeState::FindingParent {
                delivery: Delivery::Contextual { message },
                child_loaded,
            },
        ),
        (NoticeState::WritingContextual { .. }, NoticeEvent::Written(None)) => next is None
            && step is Settled,
        (
            NoticeState::FindingParent { delivery, child_loaded },
            NoticeEvent::Parent { manager_available, parent_loaded },
        ) => if manager_available && parent_loaded {
            next == Some(NoticeState::Sending) && is_send(step, delivery, child_thread_id, wake)
        } else if manager_available && child_loaded {
            next == Some(NoticeState::ReloadingParent { delivery }) && step is ReloadParent
        } else {
            next is None && step == (NoticeStep::Record { delivered: false })
        },
        (NoticeState::ReloadingParent { delivery }, NoticeEvent::Reloaded(ok)) => if ok {
            next == Some(NoticeState::Sending) && is_send(step, delivery, child_thread_id, wake)
        } else {
            next is None && step == (NoticeStep::Record { delivered: false })
        },
        (NoticeState::Sending, NoticeEvent::Sent(ok)) => next is None && step == (
        NoticeStep::Record { delivered: ok }),
        // What was not asked for counts as a failure of the delivery.
        _ => next is None && step == (NoticeStep::Record { delivered: false }),
    }
}

/// Goes on with telling a completion: the child's thread is looked up, the
/// message is written, the parent's thread is found or reloaded, and the
/// message is sent. The result is the state to go on with, if the telling is
/// not over, and what is done next.
pub fn notify_completion_to_parent(
    state: NoticeState,
    event: NoticeEvent,
    child_thread_id: ThreadId,
    child_agent_path: Option<&AgentPath>,
    wake_parent_on_completion: bool,
) -> (result: (Option<NoticeState>, NoticeStep))
    ensures
        notice_step_ok(
            state,
            event,
            child_thread_id,
            match child_agent_path {
                Some(path) => Some(*path),
                None => None,
            },
            wake_parent_on_completion,
            result.0,
            result.1,
        ),
{
    match (state, event) {
        (NoticeState::LookingUp, NoticeEvent::Child(lookup)) => {
            let child_loaded = matches!(lookup, ChildLookup::Loaded(_));
            match notice_route(lookup, child_agent_path) {
                NoticeRoute::Unavailable => (None, NoticeStep::Record { delivered: false }),
                NoticeRoute::Nobody => (None, NoticeStep::Record { delivered: true }),
                NoticeRoute::InterAgent { child_agent_path, parent_agent_path } => (
                    Some(
                        NoticeState::WritingInterAgent {
                            child_agent_path,
                            parent_agent_path,
                            child_loaded,
                        },
                    ),
                    NoticeStep::WriteInterAgent,
                ),
                NoticeRoute::Contextual => (
                    Some(NoticeState::WritingContextual { child_loaded }),
                    NoticeStep::WriteContextual,
                ),
            }
        },
        (
            NoticeState::WritingInterAgent { child_agent_path, parent_agent_path, child_loaded },
            NoticeEvent::Written(message),
        ) => match message {
            None => (None, NoticeStep::Settled),
            Some(message) => (
                Some(
                    NoticeState::FindingParent {
                        delivery: Delivery::InterAgent {
                            child_agent_path,
                            parent_agent_path,
                            message,
                        },
                        child_loaded,
                    },
                ),
                NoticeStep::FindParent,
            ),
        },
        (NoticeState::WritingContextual { child_loaded }, NoticeEvent::Written(message)) => match message {
            None => (None, NoticeStep::Settled),
            Some(message) => (
                Some(
                    NoticeState::FindingParent {
                        delivery: Delivery::Contextual { message },
                        child_loaded,
                    },
                ),
                NoticeStep::FindParent,
            ),
        },
        (
            NoticeState::FindingParent { delivery, child_loaded },
            NoticeEvent::Parent { manager_available, parent_loaded },
        ) => match ensure_completion_parent_loaded(manager_available, parent_loaded, child_loaded) {
            ParentLoad::Loaded => (
                Some(NoticeState::Sending),
                send_step(delivery, child_thread_id, wake_parent_on_completion),
            ),
            ParentLoad::Reload => (
                Some(NoticeState::ReloadingParent { delivery }),
                NoticeStep::ReloadParent,
            ),
            ParentLoad::Unavailable => (None, NoticeStep::Record { delivered: false }),
        },
        (NoticeState::ReloadingParent { delivery }, NoticeEvent::Reloaded(ok)) => {
            if ok {
                (
                    Some(NoticeState::Sending),
                    send_step(delivery, child_thread_id, wake_parent_on_completion),
                )
            } else {
                (None, NoticeStep::Record { delivered: false })
            }
        },
        (NoticeState::Sending, NoticeEvent::Sent(ok)) => (
            None,
            NoticeStep::Record { delivered: ok },
        ),
        _ => (None, NoticeStep::Record { delivered: false }),
    }
}

/// A notice counts as delivered only once it was sent, unless the child has
/// nobody above it.
pub proof fn lemma_recorded_delivery_was_sent(
    state: NoticeState,
    event: NoticeEvent,
    child_thread_id: ThreadId,
    child_agent_path: Option<AgentPath>,
    wake: bool,
    next: Option<NoticeState>,
    step: NoticeStep,
)
    requires
        notice_step_ok(state, event, child_thread_id, child_agent_path, wake, next, step),
        step == (NoticeStep::Record { delivered: true }),
    ensures
        (state is Sending && event == NoticeEvent::Sent(true)) || (state is LookingUp
            && child_agent_path is Some && child_agent_path->0@ == root_path()),
{
}

/// A completion is told to the closest agent above the child and skips none:
/// every other agent above the child is above the one that is told.
pub proof fn lemma_closest_parent_is_told(child: Seq<char>, above: Seq<char>)
    requires
        path_within(child, above),
        above != child,
    ensures
        path_within(child, child.take(last_slash(child))),
        path_within(child.take(last_slash(child)), above),
{
    lemma_last_slash(child);
    let at = last_slash(child);
    let told = child.take(at);
    let slashed = above + seq!['/'];
    assert(child[above.len() as int] == slashed[above.len() as int]);
    assert(above.len() <= at);
    assert(told + seq!['/'] =~= child.take(at + 1));
    if above.len() == at {
        assert(told =~= above) by {
            assert forall|i: int| 0 <= i < at implies told[i] == above[i] by {
                assert(child[i] == slashed[i]);
            }
        }
    } else {
        assert(slashed.is_prefix_of(told)) by {
            assert forall|i: int| 0 <= i < slashed.len() implies told[i] == slashed[i] by {
                assert(child[i] == slashed[i]);
            }
        }
    }
}

/// A completion that was told is not told again: once its delivery is
/// recorded, no notice is owed for that generation.
pub proof fn lemma_told_once(
    subscription: ParentWakeSubscription,
    generation: u64,
    status: AgentStatus,
)
    requires
        is_in_flight(subscription, generation),
        reached_only(subscription),
    ensures
        owed_by(
            with_notice_finished(subscription, generation, TellOutcome::Delivered),
            generation,
            status,
        ) is None,
{
}

/// A completion that could not be delivered is owed again, or its teller goes
/// on with it.
pub proof fn lemma_undelivered_stays_owed(
    subscription: ParentWakeSubscription,
    generation: u64,
    status: AgentStatus,
)
    requires
        owed_by(subscription, generation, status) is Some,
    ensures
        ({
            let begun = with_notice_begun(subscription, generation);
            owed_by(
                with_notice_finished(begun, generation, TellOutcome::Failed),
                generation,
                status,
            ) == owed_by(subscription, generation, status)
        }),
{
}

/// Telling one child's completion leaves every other child's notices as they
/// were.
pub proof fn lemma_notices_independent(
    subscriptions: Map<u128, ParentWakeSubscription>,
    child: ThreadId,
    generation: u64,
    outcome: TellOutcome,
    other: ThreadId,
    other_generation: u64,
    status: AgentStatus,
)
    requires
        other != child,
    ensures
        notice_owed(
            notice_recorded(subscriptions, child, generation, outcome),
            other,
            other_generation,
            status,
        ) == notice_owed(subscriptions, other, other_generation, status),
{
}

/// A child that completed and is given new work owes a notice for the new
/// generation, whatever was told before. The watchers of the old generation
/// are superseded and take nothing on any more; where the old completion was
/// not told yet, giving the new work owes its notice. This needs a generation
/// that can be counted up.
pub proof fn lemma_rearm_owes_next_generation(
    before: ParentWakeSubscription,
    policy: Option<AgentWakeDescendantPolicy>,
    status: AgentStatus,
)
    requires
        before.completion_watcher_generation < u64::MAX,
        reached_only(before),
        is_final_status(status),
    ensures
        ({
            let after = with_next_generation(before, policy);
            let previous = before.completion_watcher_generation;
            &&& after.completion_watcher_generation == previous + 1
            &&& is_pending(after)
            &&& owed_by(after, after.completion_watcher_generation, status) == Some(
                before.wake_parent_on_completion,
            )
            &&& owed_by(after, previous, status) is None
            &&& overtaken_notice(before, policy, status, false, false) == owed_by(
                before,
                previous,
                status,
            )
        }),
{
}

/// Work that is under way and has not been told of keeps its watcher: it is
/// not rearmed a second time.
pub proof fn lemma_running_work_keeps_its_watcher(
    subscription: ParentWakeSubscription,
    status: AgentStatus,
)
    requires
        status is Running || status is Interrupted,
        is_pending(subscription),
    ensures
        !allows_rearm(status, subscription),
{
}

/// One step in the life of a child's subscription. The steps of a notice, and
/// of several notices, may have any other steps between them.
pub ghost enum WakeStep {
    /// Somebody wants to tell the parent of a generation.
    Begin { generation: u64, status: AgentStatus },
    /// What came of telling the parent of a generation is known.
    Finish { generation: u64, outcome: TellOutcome },
    /// The child is given new work while it has the given status.
    Rearm {
        policy: Option<AgentWakeDescendantPolicy>,
        status: AgentStatus,
        suppressed: bool,
        active_descendants: bool,
    },
}

/// A child's subscription, and the generations whose notices are on their way.
pub ghost struct WakeLife {
    pub subscription: ParentWakeSubscription,
    pub held: Set<u64>,
}

/// The generation whose notice a step hands to a teller.
pub open spec fn hands_out(subscription: ParentWakeSubscription, step: WakeStep) -> Option<u64> {
    match step {
        WakeStep::Begin { generation, status } => if owed_by(
            subscription,
            generation,
            status,
        ) is Some {
            Some(generation)
        } else {
            None
        },
        WakeStep::Rearm { policy, status, suppressed, active_descendants } => if allows_rearm(
            status,
            subscription,
        ) && overtaken_notice(
            subscription,
            policy,
            status,
            suppressed,
            active_descendants,
        ) is Some {
            Some(subscription.completion_watcher_generation)
        } else {
            None
        },
        WakeStep::Finish { .. } => None,
    }
}

/// The life after a step. Only who holds a notice can come to an end with it.
pub open spec fn after_step(life: WakeLife, step: WakeStep) -> WakeLife {
    let held = match hands_out(life.subscription, step) {
        Some(generation) => life.held.insert(generation),
        None => life.held,
    };
    match step {
        WakeStep::Begin { generation, .. } => WakeLife {
            subscription: if hands_out(life.subscription, step) is Some {
                with_notice_begun(life.subscription, generation)
            } else {
                life.subscription
            },
            held,
        },
        WakeStep::Finish { generation, outcome } => if life.held.contains(generation) {
            WakeLife {
                subscription: with_notice_finished(life.subscription, generation, outcome),
                held: if stays_with_teller(life.subscription, generation, outcome) {
                    held
                } else {
                    held.remove(generation)
                },
            }
        } else {
            life
        },
        WakeStep::Rearm { policy, status, .. } => WakeLife {
            subscription: if allows_rearm(status, life.subscription) {
                with_next_generation(life.subscription, policy)
            } else {
                with_policy(life.subscription, policy)
            },
            held,
        },
    }
}

/// A step delivers the notice of the given generation.
pub open spec fn delivers(life: WakeLife, step: WakeStep, generation: u64) -> bool {
    step == (WakeStep::Finish { generation, outcome: TellOutcome::Delivered })
        && life.held.contains(generation)
}

/// How many of the steps deliver the notice of the given generation.
pub open spec fn deliveries(life: WakeLife, steps: Seq<WakeStep>, generation: u64) -> nat
    decreases steps.len(),
{
    if steps.len() == 0 {
        0
    } else {
        let rest = deliveries(after_step(life, steps[0]), steps.skip(1), generation);
        if delivers(life, steps[0], generation) {
            rest + 1
        } else {
            rest
        }
    }
}

/// The life after the steps.
pub open spec fn after_steps(life: WakeLife, steps: Seq<WakeStep>) -> WakeLife
    decreases steps.len(),
{
    if steps.len() == 0 {
        life
    } else {
        after_steps(after_step(life, steps[0]), steps.skip(1))
    }
}

/// The marks of a subscription agree with the notices that are on their way.
pub open spec fn is_consistent(life: WakeLife) -> bool {
    let current = life.subscription.completion_watcher_generation;
    &&& reached_only(life.subscription)
    &&& forall|generation: u64| #[trigger]
        life.held.contains(generation) ==> generation <= current
    &&& life.held.contains(current) <==> is_in_flight(life.subscription, current)
    &&& life.held.contains(current) ==> !is_notified(life.subscription, current)
}

/// A subscription as it begins, with no notice on its way, is consistent.
pub proof fn lemma_fresh_is_consistent(life: WakeLife)
    requires
        life.subscription.last_notified_generation is None,
        life.subscription.notice_in_flight is None,
        life.held == Set::<u64>::empty(),
    ensures
        is_consistent(life),
{
}

/// Every step keeps a life consistent, and hands no notice to a second teller:
/// what is handed out is not on its way already.
pub proof fn lemma_one_teller(life: WakeLife, step: WakeStep)
    requires
        is_consistent(life),
    ensures
        is_consistent(after_step(life, step)),
        hands_out(life.subscription, step) matches Some(generation) ==> !life.held.contains(
            generation,
        ),
{
    let next = after_step(life, step);
    assert forall|generation: u64| #[trigger] next.held.contains(generation) implies generation
        <= next.subscription.completion_watcher_generation by {
        if life.held.contains(generation) {
        }
    }
}

/// The generation was told or is past, and no notice of it is on its way.
pub open spec fn is_settled(life: WakeLife, generation: u64) -> bool {
    let current = life.subscription.completion_watcher_generation;
    &&& !life.held.contains(generation)
    &&& generation < current || (generation == current && is_notified(
        life.subscription,
        generation,
    ))
}

proof fn lemma_settled_delivers_nothing(life: WakeLife, steps: Seq<WakeStep>, generation: u64)
    requires
        is_consistent(life),
        is_settled(life, generation),
    ensures
        deliveries(life, steps, generation) == 0,
    decreases steps.len(),
{
    if steps.len() > 0 {
        let next = after_step(life, steps[0]);
        lemma_one_teller(life, steps[0]);
        assert(is_settled(next, generation));
        lemma_settled_delivers_nothing(next, steps.skip(1), generation);
    }
}

proof fn lemma_delivery_settles(life: WakeLife, step: WakeStep, generation: u64)
    requires
        is_consistent(life),
        delivers(life, step, generation),
    ensures
        is_settled(after_step(life, step), generation),
{
    assert(life.held.contains(generation));
}

/// Whatever work a child is given, and however the notices of its completions
/// and the new work overlap, the parent is told of each generation at most
/// once.
pub proof fn lemma_at_most_one_delivery_per_generation(
    life: WakeLife,
    steps: Seq<WakeStep>,
    generation: u64,
)
    requires
        is_consistent(life),
    ensures
        deliveries(life, steps, generation) <= 1,
    decreases steps.len(),
{
    if steps.len() > 0 {
        let next = after_step(life, steps[0]);
        lemma_one_teller(life, steps[0]);
        if delivers(life, steps[0], generation) {
            lemma_delivery_settles(life, steps[0], generation);
            lemma_settled_delivers_nothing(next, steps.skip(1), generation);
        } else {
            lemma_at_most_one_delivery_per_generation(next, steps.skip(1), generation);
        }
    }
}

/// The parent is still to be told of a generation: its notice is on its way,
/// or can be taken on.
pub open spec fn is_open(life: WakeLife, generation: u64) -> bool {
    life.held.contains(generation) || (life.subscription.completion_watcher_generation == generation
        && !is_notified(life.subscription, generation))
}

/// A step gives the notice of a generation up: new work overtakes it without
/// owing its notice, because it was not over, or there was nothing to say.
pub open spec fn gives_up(life: WakeLife, step: WakeStep, generation: u64) -> bool {
    match step {
        WakeStep::Rearm { policy, status, suppressed, active_descendants } => {
            &&& life.subscription.completion_watcher_generation == generation
            &&& generation < u64::MAX
            &&& allows_rearm(status, life.subscription)
            &&& !life.held.contains(generation)
            &&& !is_final_status(status) || suppressed || is_blocked(
                with_policy(life.subscription, policy),
                active_descendants,
            )
        },
        WakeStep::Finish { generation: told, outcome } => told == generation && outcome
            is NothingToTell,
        WakeStep::Begin { .. } => false,
    }
}

/// None of the steps gives the notice of a generation up.
pub open spec fn none_gives_up(life: WakeLife, steps: Seq<WakeStep>, generation: u64) -> bool
    decreases steps.len(),
{
    steps.len() > 0 ==> {
        &&& !gives_up(life, steps[0], generation)
        &&& none_gives_up(after_step(life, steps[0]), steps.skip(1), generation)
    }
}

/// No notice is lost: unless it is given up, the parent of a child is told of
/// a generation exactly once, or is still to be told, whatever the steps and
/// however they overlap.
pub proof fn lemma_told_exactly_once_or_still_open(
    life: WakeLife,
    steps: Seq<WakeStep>,
    generation: u64,
)
    requires
        is_consistent(life),
        is_open(life, generation),
        none_gives_up(life, steps, generation),
    ensures
        deliveries(life, steps, generation) == 1 || (deliveries(life, steps, generation) == 0
            && is_open(after_steps(life, steps), generation)),
    decreases steps.len(),
{
    if steps.len() > 0 {
        let next = after_step(life, steps[0]);
        lemma_one_teller(life, steps[0]);
        if delivers(life, steps[0], generation) {
            lemma_delivery_settles(life, steps[0], generation);
            lemma_settled_delivers_nothing(next, steps.skip(1), generation);
        } else {
            assert(is_open(next, generation));
            lemma_told_exactly_once_or_still_open(next, steps.skip(1), generation);
        }
    }
}

/// None of the steps comes to an end with the notice of a generation.
pub open spec fn none_finishes(steps: Seq<WakeStep>, generation: u64) -> bool {
    forall|i: int|
        0 <= i < steps.len() ==> !((#[trigger] steps[i]) matches WakeStep::Finish {
            generation: told,
            ..
        } && told == generation)
}

proof fn lemma_held_until_finished(
    life: WakeLife,
    between: Seq<WakeStep>,
    later: Seq<WakeStep>,
    generation: u64,
)
    requires
        is_consistent(life),
        life.held.contains(generation),
        none_finishes(between, generation),
    ensures
        deliveries(
            life,
            between + seq![WakeStep::Finish { generation, outcome: TellOutcome::Delivered }]
                + later,
            generation,
        ) == 1,
    decreases between.len(),
{
    let told = WakeStep::Finish { generation, outcome: TellOutcome::Delivered };
    let steps = between + seq![told] + later;
    let next = after_step(life, steps[0]);
    lemma_one_teller(life, steps[0]);
    if between.len() == 0 {
        assert(steps[0] == told);
        assert(steps.skip(1) =~= later);
        lemma_delivery_settles(life, told, generation);
        lemma_settled_delivers_nothing(next, later, generation);
    } else {
        assert(steps[0] == between[0]);
        assert(steps.skip(1) =~= between.skip(1) + seq![told] + later);
        assert(none_finishes(between.skip(1), generation)) by {
            assert forall|i: int| 0 <= i < between.skip(1).len() implies !((
            #[trigger] between.skip(1)[i]) matches WakeStep::Finish { generation: other, .. }
                && other == generation) by {
                assert(between.skip(1)[i] == between[i + 1]);
            }
        }
        assert(next.held.contains(generation));
        lemma_held_until_finished(next, between.skip(1), later, generation);
    }
}

/// A completed generation whose notice is taken on and delivered is told
/// exactly once, whatever happens while the notice is on its way and after.
pub proof fn lemma_completed_generation_told_exactly_once(
    life: WakeLife,
    generation: u64,
    status: AgentStatus,
    between: Seq<WakeStep>,
    later: Seq<WakeStep>,
)
    requires
        is_consistent(life),
        is_final_status(status),
        life.subscription.completion_watcher_generation == generation,
        is_open(life, generation),
        !life.held.contains(generation),
        none_finishes(between, generation),
    ensures
        deliveries(
            life,
            seq![WakeStep::Begin { generation, status }] + between + seq![
                WakeStep::Finish { generation, outcome: TellOutcome::Delivered },
            ] + later,
            generation,
        ) == 1,
{
    let first = WakeStep::Begin { generation, status };
    let told = WakeStep::Finish { generation, outcome: TellOutcome::Delivered };
    let steps = seq![first] + between + seq![told] + later;
    let next = after_step(life, first);
    lemma_one_teller(life, first);
    assert(steps[0] == first);
    assert(steps.skip(1) =~= between + seq![told] + later);
    lemma_held_until_finished(next, between, later, generation);
}

/// A completed generation that is overtaken by new work before anybody took
/// its notice on is told exactly once as well, by whoever gives the work, once
/// that is delivered.
pub proof fn lemma_overtaken_generation_told_exactly_once(
    life: WakeLife,
    generation: u64,
    policy: Option<AgentWakeDescendantPolicy>,
    status: AgentStatus,
    between: Seq<WakeStep>,
    later: Seq<WakeStep>,
)
    requires
        is_consistent(life),
        is_final_status(status),
        life.subscription.completion_watcher_generation == generation,
        generation < u64::MAX,
        is_open(life, generation),
        !life.held.contains(generation),
        none_finishes(between, generation),
    ensures
        deliveries(
            life,
            seq![
                WakeStep::Rearm { policy, status, suppressed: false, active_descendants: false },
            ] + between + seq![
                WakeStep::Finish { generation, outcome: TellOutcome::Delivered },
            ] + later,
            generation,
        ) == 1,
{
    let first = WakeStep::Rearm { policy, status, suppressed: false, active_descendants: false };
    let told = WakeStep::Finish { generation, outcome: TellOutcome::Delivered };
    let steps = seq![first] + between + seq![told] + later;
    let next = after_step(life, first);
    lemma_one_teller(life, first);
    assert(steps[0] == first);
    assert(steps.skip(1) =~= between + seq![told] + later);
    lemma_held_until_finished(next, between, later, generation);
}

/// New work that overtakes a notice which the child's descendants block has
/// the work before go on: no step delivers a notice of the old generation any
/// more, and the parent is still to be told of the new one.
pub proof fn lemma_blocked_work_goes_on(
    life: WakeLife,
    policy: Option<AgentWakeDescendantPolicy>,
    status: AgentStatus,
    later: Seq<WakeStep>,
)
    requires
        is_consistent(life),
        is_final_status(status),
        life.subscription.completion_watcher_generation < u64::MAX,
        !life.held.contains(life.subscription.completion_watcher_generation),
        is_blocked(with_policy(life.subscription, policy), true),
    ensures
        ({
            let generation = life.subscription.completion_watcher_generation;
            let step = WakeStep::Rearm {
                policy,
                status,
                suppressed: false,
                active_descendants: true,
            };
            let next = after_step(life, step);
            &&& deliveries(next, later, generation) == 0
            &&& next.subscription.completion_watcher_generation == generation + 1
            &&& is_open(next, (generation + 1) as u64)
        }),
{
    let generation = life.subscription.completion_watcher_generation;
    let step = WakeStep::Rearm { policy, status, suppressed: false, active_descendants: true };
    lemma_one_teller(life, step);
    lemma_settled_delivers_nothing(after_step(life, step), later, generation);
}

/// A notice is owed for a generation exactly when the child is done with its
/// work, is still on that generation, the parent was not told of it, and nobody
/// is about to tell it. It wakes the parent where the subscription says so.
pub proof fn lemma_when_a_notice_is_owed(
    subscriptions: Map<u128, ParentWakeSubscription>,
    child: ThreadId,
    subscription: ParentWakeSubscription,
    generation: u64,
    status: AgentStatus,
)
    ensures
        notice_owed(subscriptions.remove(child.bits), child, generation, status) is None,
        ({
            let owed = notice_owed(
                subscriptions.insert(child.bits, subscription),
                child,
                generation,
                status,
            );
            &&& owed is Some ==> owed->0 == subscription.wake_parent_on_completion
            &&& owed is Some <==> {
                &&& status is Completed || status is Errored || status is Shutdown || status
                    is NotFound
                &&& subscription.completion_watcher_generation == generation
                &&& subscription.last_notified_generation != Some(generation)
                &&& subscription.notice_in_flight != Some(generation)
            }
        }),
{
}

/// While a notice is on its way nobody else takes it on. Once it was delivered
/// the parent no longer waits; where it failed, or there was nothing to say,
/// the parent still does. Only the notice of the current generation is
/// recorded, and nothing of the subscription changes but what is told of.
pub proof fn lemma_course_of_a_notice(
    subscription: ParentWakeSubscription,
    generation: u64,
    outcome: TellOutcome,
    status: AgentStatus,
)
    requires
        owed_by(subscription, generation, status) is Some,
    ensures
        ({
            let begun = with_notice_begun(subscription, generation);
            let done = with_notice_finished(begun, generation, outcome);
            &&& owed_by(begun, generation, status) is None
            &&& begun.last_notified_generation == subscription.last_notified_generation
            &&& outcome is Delivered ==> done.last_notified_generation == Some(generation)
                && !is_pending(done)
            &&& !(outcome is Delivered) ==> done.last_notified_generation
                == subscription.last_notified_generation && is_pending(done)
            &&& done.notice_in_flight is None
            &&& done.completion_watcher_generation == subscription.completion_watcher_generation
            &&& done.parent_thread_id == subscription.parent_thread_id
            &&& done.wake_parent_on_completion == subscription.wake_parent_on_completion
            &&& done.wake_descendant_policy == subscription.wake_descendant_policy
            &&& done.child_reference == subscription.child_reference
            &&& done.child_agent_path == subscription.child_agent_path
        }),
{
}

/// A notice of a generation that was overtaken, or that is not on its way, is
/// not recorded. One that failed stays with its teller where its generation was
/// overtaken, and only then.
pub proof fn lemma_overtaken_notice_is_not_recorded(
    subscription: ParentWakeSubscription,
    generation: u64,
    outcome: TellOutcome,
)
    ensures
        subscription.completion_watcher_generation != generation
            || subscription.notice_in_flight != Some(generation) ==> with_notice_finished(
            subscription,
            generation,
            outcome,
        ) == subscription,
        stays_with_teller(subscription, generation, outcome) <==> outcome == TellOutcome::Failed
            && subscription.completion_watcher_generation != generation,
{
}

/// A child speaks by its path where it has one and its thread speaks the second
/// version of the tools or is not loaded.
pub proof fn lemma_who_speaks_by_path(path: AgentPath)
    ensures
        forall|lookup: ChildLookup| !(#[trigger] speaks_by_path(lookup, None)),
        speaks_by_path(ChildLookup::NotLoaded, Some(path)),
        speaks_by_path(ChildLookup::Loaded(Some(MultiAgentVersion::V2)), Some(path)),
        !speaks_by_path(ChildLookup::Loaded(Some(MultiAgentVersion::V1)), Some(path)),
        !speaks_by_path(ChildLookup::Loaded(None), Some(path)),
        !speaks_by_path(ChildLookup::ManagerGone, Some(path)),
{
}

/// Without a parent nothing reaches it. A message that is to wake nobody is put
/// into the conversation quietly. One that is to wake the parent joins the
/// running turn; if none runs it starts one; if none can be started it is put
/// there as it is. It counts as delivered as soon as one of these worked, and
/// it is the same message throughout.
pub proof fn lemma_message_for_the_conversation(message: String, trigger_turn: bool)
    ensures
        contextual_next(
            ContextualTried::Nothing { parent_available: false, trigger_turn },
            message,
        ) == ContextualAction::Done(false),
        contextual_next(
            ContextualTried::Nothing { parent_available: true, trigger_turn: false },
            message,
        ) == ContextualAction::InjectWithoutTurn(message),
        contextual_next(
            ContextualTried::Nothing { parent_available: true, trigger_turn: true },
            message,
        ) == ContextualAction::InjectIfRunning(message),
        contextual_next(ContextualTried::InjectIfRunning { accepted: false }, message)
            == ContextualAction::StartTurnIfIdle(message),
        contextual_next(ContextualTried::StartTurnIfIdle { accepted: false }, message)
            == ContextualAction::InjectItems(message),
        contextual_next(ContextualTried::InjectIfRunning { accepted: true }, message)
            == ContextualAction::Done(true),
        contextual_next(ContextualTried::StartTurnIfIdle { accepted: true }, message)
            == ContextualAction::Done(true),
        contextual_next(ContextualTried::InjectedWithoutTurn, message) == ContextualAction::Done(
            true,
        ),
        contextual_next(ContextualTried::InjectedItems, message) == ContextualAction::Done(true),
{
}

/// A descendant is at rest where its status is final and it has neither a turn
/// nor anything that will start one; else it is active.
pub proof fn lemma_which_descendants_are_active(
    status: AgentStatus,
    active_turn: bool,
    trigger_turn_mailbox_items: bool,
    pending_input: bool,
)
    ensures
        ({
            let activity = TurnActivity { active_turn, trigger_turn_mailbox_items, pending_input };
            let working = status is PendingInit || status is Running || status is Interrupted;
            &&& is_active_descendant((status, Some(activity))) <==> working || active_turn
                || trigger_turn_mailbox_items || pending_input
            &&& is_active_descendant((status, None)) <==> working
            &&& is_occupied(Some(activity)) <==> active_turn || trigger_turn_mailbox_items
                || pending_input
        }),
        !is_occupied(None),
{
}

/// What goes out to a parent is the message that was written, from the child's
/// path to its parent's or into the parent's conversation, and wakes the parent
/// exactly where that was owed. Nothing goes out before the parent was found,
/// or was brought back.
pub proof fn lemma_what_is_sent(
    state: NoticeState,
    event: NoticeEvent,
    child_thread_id: ThreadId,
    child_agent_path: Option<AgentPath>,
    wake: bool,
    next: Option<NoticeState>,
    step: NoticeStep,
)
    requires
        notice_step_ok(state, event, child_thread_id, child_agent_path, wake, next, step),
    ensures
        step is SendInterAgent || step is SendContextual ==> {
            &&& next == Some(NoticeState::Sending)
            &&& state is FindingParent || state is ReloadingParent
            &&& state is FindingParent ==> event == (NoticeEvent::Parent {
                manager_available: true,
                parent_loaded: true,
            })
            &&& state is ReloadingParent ==> event == NoticeEvent::Reloaded(true)
        },
        step matches NoticeStep::SendInterAgent(communication, context) ==> {
            let delivery = if state is FindingParent {
                state->FindingParent_delivery
            } else {
                state->ReloadingParent_delivery
            };
            &&& delivery == (Delivery::InterAgent {
                child_agent_path: communication.author,
                parent_agent_path: communication.recipient,
                message: communication.content,
            })
            &&& communication.trigger_turn == wake
            &&& communication.other_recipients@.len() == 0
            &&& communication.encrypted_content is None
            &&& context.kind is Result
            &&& context.sender_thread_id == child_thread_id
        },
        step matches NoticeStep::SendContextual { message, trigger_turn } ==> {
            let delivery = if state is FindingParent {
                state->FindingParent_delivery
            } else {
                state->ReloadingParent_delivery
            };
            &&& delivery == (Delivery::Contextual { message })
            &&& trigger_turn == wake
        },
{
}

/// A message that was written is what is delivered; where there is nothing to
/// say, nothing is delivered and the notice is settled, and at no other point.
pub proof fn lemma_written_message_is_delivered(
    state: NoticeState,
    event: NoticeEvent,
    child_thread_id: ThreadId,
    child_agent_path: Option<AgentPath>,
    wake: bool,
    next: Option<NoticeState>,
    step: NoticeStep,
)
    requires
        notice_step_ok(state, event, child_thread_id, child_agent_path, wake, next, step),
    ensures
        step is Settled <==> (state is WritingInterAgent || state is WritingContextual) && event
            == NoticeEvent::Written(None),
        next matches Some(NoticeState::FindingParent { delivery, child_loaded }) ==> match state {
            NoticeState::WritingInterAgent {
                child_agent_path: child,
                parent_agent_path: parent,
                child_loaded: loaded,
            } => {
                &&& delivery matches Delivery::InterAgent {
                    child_agent_path: from,
                    parent_agent_path: to,
                    message,
                }
                &&& from == child && to == parent && child_loaded == loaded
                &&& event == NoticeEvent::Written(Some(message))
            },
            NoticeState::WritingContextual { child_loaded: loaded } => {
                &&& delivery matches Delivery::Contextual { message }
                &&& child_loaded == loaded
                &&& event == NoticeEvent::Written(Some(message))
            },
            _ => false,
        },
        next matches Some(NoticeState::ReloadingParent { delivery }) ==> state
            is FindingParent && delivery == state->FindingParent_delivery
            && state->FindingParent_child_loaded && event == (NoticeEvent::Parent {
            manager_available: true,
            parent_loaded: false,
        }),
{
}

} // verus!
