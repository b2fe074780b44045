//! Sending messages and tasks to other agents, and closing them.

use vstd::prelude::*;
use crate::agent::{
    lemma_path_within_antisymmetric, path_within, root_path, AgentMetadata, AgentPath, AgentStatus,
    ThreadId,
};
use crate::communication::{
    AgentCommunicationContext, AgentCommunicationKind, InterAgentCommunication,
    MessageDeliveryMode,
};
use crate::text::{blank, trim};

verus! {

/// The message, which must hold more than white space.
pub fn message_content(message: String) -> (result: Result<String, String>)
    ensures
        result is Err <==> trim(message@).len() == 0,
        result matches Ok(content) ==> content == message,
        result matches Err(error) ==> error@ == "Empty message can't be sent to an agent"@,
{
    if blank(message.as_str()) {
        return Err("Empty message can't be sent to an agent".to_owned());
    }
    Ok(message)
}

/// Whether an agent may address another: the root may address all, others
/// those below them, and by queued messages those above them.
pub open spec fn may_address(
    mode: MessageDeliveryMode,
    author: Seq<char>,
    receiver: Seq<char>,
) -> bool {
    ||| author == root_path()
    ||| path_within(receiver, author)
    ||| mode is QueueOnly && path_within(author, receiver)
}

/// Why a message to an agent is refused.
pub open spec fn lineage_message(author: Seq<char>, receiver: Seq<char>) -> Seq<char> {
    "target agent `"@ + receiver + "` is outside the current agent lineage `"@ + author
        + "`; subagents can only message agents in their descendant subtree, or queue messages to an ancestor"@
}

/// Checks that an agent may address another.
pub fn validate_message_target_lineage(
    mode: MessageDeliveryMode,
    author: &AgentPath,
    receiver: &AgentPath,
) -> (result: Result<(), String>)
    ensures
        result is Ok <==> may_address(mode, author@, receiver@),
        result matches Err(message) ==> message@ == lineage_message(author@, receiver@),
{
    if author.is_root() || receiver.within(author) || (matches!(mode, MessageDeliveryMode::QueueOnly)
        && author.within(receiver)) {
        return Ok(());
    }
    Err(
        "target agent `".to_owned().concat(receiver.as_str()).concat(
            "` is outside the current agent lineage `",
        ).concat(author.as_str()).concat(
            "`; subagents can only message agents in their descendant subtree, or queue messages to an ancestor",
        ),
    )
}

/// What a message tool does about a known receiver.
#[derive(Debug)]
pub enum MessageAdmission {
    /// The message is refused, for this reason.
    Refused(String),
    /// The message may go to the agent with this path.
    Admitted(AgentPath),
}

/// Whether a message may go to a receiver. Tasks cannot go to the root agent,
/// nothing can go to an agent without a path, and the lineage has to be right.
pub fn admit_message(
    mode: MessageDeliveryMode,
    author: &AgentPath,
    receiver: &AgentMetadata,
) -> (result: MessageAdmission)
    ensures
        match receiver.agent_path {
            Some(path) => if mode is TriggerTurn && path@ == root_path() {
                result matches MessageAdmission::Refused(message) && message@
                    == "Follow-up tasks can't target the root agent"@
            } else if may_address(mode, author@, path@) {
                result == MessageAdmission::Admitted(path)
            } else {
                result matches MessageAdmission::Refused(message) && message@ == lineage_message(
                    author@,
                    path@,
                )
            },
            None => result matches MessageAdmission::Refused(message) && message@
                == "target agent is missing an agent_path"@,
        },
{
    match &receiver.agent_path {
        Some(path) => {
            if matches!(mode, MessageDeliveryMode::TriggerTurn) && path.is_root() {
                return MessageAdmission::Refused(
                    "Follow-up tasks can't target the root agent".to_owned(),
                );
            }
            match validate_message_target_lineage(mode, author, path) {
                Ok(()) => MessageAdmission::Admitted(path.clone()),
                Err(message) => MessageAdmission::Refused(message),
            }
        },
        None => MessageAdmission::Refused("target agent is missing an agent_path".to_owned()),
    }
}

/// How far a message tool is.
#[derive(Debug)]
pub enum MessageState {
    /// The receiver is resolved.
    Resolving { content: String },
    /// The receiver is looked up.
    Finding { content: String, receiver_thread_id: ThreadId },
    /// The receiver is loaded.
    Loading { content: String, receiver_thread_id: ThreadId, receiver_agent_path: AgentPath },
    /// What the receiver is doing is stopped.
    Interrupting { content: String, receiver_thread_id: ThreadId, receiver_agent_path: AgentPath },
    /// The communication is made of the content.
    Composing { receiver_thread_id: ThreadId, receiver_agent_path: AgentPath },
    /// The communication is on its way.
    Sending { receiver_thread_id: ThreadId, receiver_agent_path: AgentPath },
    /// That the receiver was addressed is shown.
    Showing,
}

/// What a message tool hears. `None` stands for a step that failed.
#[derive(Debug)]
pub enum MessageEvent {
    Resolved(Option<ThreadId>),
    Found(Option<AgentMetadata>),
    Loaded { ok: bool },
    Interrupted { ok: bool },
    Composed(InterAgentCommunication),
    Sent { ok: bool },
    Shown,
}

/// What a message tool does next.
#[derive(Debug)]
pub enum MessageAction {
    /// Find out which thread the target is.
    Resolve,
    /// Look up the agent of this thread.
    Find(ThreadId),
    Load(ThreadId),
    Interrupt(ThreadId),
    /// Make a communication of this content, to this path.
    Compose { receiver_agent_path: AgentPath, content: String },
    /// Send this, in this context, to this thread.
    Send(ThreadId, InterAgentCommunication, AgentCommunicationContext),
    /// Show that the agent of this thread, with this path, was addressed.
    ShowInteraction(ThreadId, AgentPath),
    /// Report success.
    Return,
    /// Refuse the call, for this reason.
    Refuse(String),
    /// Fail with the error of the last step.
    Fail,
}

/// The two ways to go on with an admitted message, once its receiver is there.
pub open spec fn composes(
    content: String,
    receiver_thread_id: ThreadId,
    receiver_agent_path: AgentPath,
    next: Option<MessageState>,
    action: MessageAction,
) -> bool {
    &&& next == Some(MessageState::Composing { receiver_thread_id, receiver_agent_path })
    &&& action == (MessageAction::Compose { receiver_agent_path, content })
}

/// A message tool goes on as it should.
pub open spec fn message_step_ok(
    mode: MessageDeliveryMode,
    interrupt: bool,
    sender_thread_id: ThreadId,
    author: AgentPath,
    state: MessageState,
    event: MessageEvent,
    next: Option<MessageState>,
    action: MessageAction,
) -> bool {
    match (state, event) {
        (MessageState::Resolving { content }, MessageEvent::Resolved(Some(id))) => {
            &&& next == Some(MessageState::Finding { content, receiver_thread_id: id })
            &&& action == MessageAction::Find(id)
        },
        (
            MessageState::Finding { content, receiver_thread_id },
            MessageEvent::Found(Some(receiver)),
        ) => match receiver.agent_path {
            Some(path) if !(mode is TriggerTurn && path@ == root_path()) && may_address(
                mode,
                author@,
                path@,
            ) => {
                &&& next == Some(
                    MessageState::Loading { content, receiver_thread_id, receiver_agent_path: path },
                )
                &&& action == MessageAction::Load(receiver_thread_id)
            },
            _ => {
                &&& next is None
                &&& action matches MessageAction::Refuse(message) && message@ == (
                match receiver.agent_path {
                    None => "target agent is missing an agent_path"@,
                    Some(path) => if mode is TriggerTurn && path@ == root_path() {
                        "Follow-up tasks can't target the root agent"@
                    } else {
                        lineage_message(author@, path@)
                    },
                })
            },
        },
        (
            MessageState::Loading { content, receiver_thread_id, receiver_agent_path },
            MessageEvent::Loaded { ok: true },
        ) => if interrupt {
            &&& next == Some(
                MessageState::Interrupting { content, receiver_thread_id, receiver_agent_path },
            )
            &&& action == MessageAction::Interrupt(receiver_thread_id)
        } else {
            composes(content, receiver_thread_id, receiver_agent_path, next, action)
        },
        (
            MessageState::Interrupting { content, receiver_thread_id, receiver_agent_path },
            MessageEvent::Interrupted { ok: true },
        ) => composes(content, receiver_thread_id, receiver_agent_path, next, action),
        (
            MessageState::Composing { receiver_thread_id, receiver_agent_path },
            MessageEvent::Composed(communication),
        ) => {
            &&& next == Some(MessageState::Sending { receiver_thread_id, receiver_agent_path })
            &&& action == MessageAction::Send(
                receiver_thread_id,
                InterAgentCommunication { trigger_turn: mode is TriggerTurn, ..communication },
                AgentCommunicationContext {
                    kind: if mode is QueueOnly {
                        AgentCommunicationKind::Message
                    } else {
                        AgentCommunicationKind::Followup
                    },
                    sender_thread_id,
                },
            )
        },
        (
            MessageState::Sending { receiver_thread_id, receiver_agent_path },
            MessageEvent::Sent { ok: true },
        ) => {
            &&& next == Some(MessageState::Showing)
            &&& action == MessageAction::ShowInteraction(receiver_thread_id, receiver_agent_path)
        },
        (MessageState::Showing, MessageEvent::Shown) => next is None && action is Return,
        _ => next is None && action is Fail,
    }
}

/// Begins to send a message: it has to say something.
pub fn begin_message(message: String) -> (result: Result<(MessageState, MessageAction), String>)
    ensures
        match result {
            Ok((state, action)) => {
                &&& trim(message@).len() > 0
                &&& state == (MessageState::Resolving { content: message })
                &&& action is Resolve
            },
            Err(reason) => {
                &&& trim(message@).len() == 0
                &&& reason@ == "Empty message can't be sent to an agent"@
            },
        },
{
    match message_content(message) {
        Ok(content) => Ok((MessageState::Resolving { content }, MessageAction::Resolve)),
        Err(reason) => Err(reason),
    }
}

/// Goes on with a message: its receiver is resolved, looked up, admitted and
/// loaded, interrupted where that is asked for, and then sent the message.
/// The first failure ends it. The result is the state to go on with, if the
/// call is not over, and what is done next.
pub fn handle_message_string_tool(
    mode: MessageDeliveryMode,
    interrupt: bool,
    sender_thread_id: ThreadId,
    author: &AgentPath,
    state: MessageState,
    event: MessageEvent,
) -> (result: (Option<MessageState>, MessageAction))
    ensures
        message_step_ok(
            mode,
            interrupt,
            sender_thread_id,
            *author,
            state,
            event,
            result.0,
            result.1,
        ),
{
    match (state, event) {
        (MessageState::Resolving { content }, MessageEvent::Resolved(Some(id))) => (
            Some(MessageState::Finding { content, receiver_thread_id: id }),
            MessageAction::Find(id),
        ),
        (
            MessageState::Finding { content, receiver_thread_id },
            MessageEvent::Found(Some(receiver)),
        ) => match admit_message(mode, author, &receiver) {
            MessageAdmission::Refused(message) => (None, MessageAction::Refuse(message)),
            MessageAdmission::Admitted(receiver_agent_path) => (
                Some(MessageState::Loading { content, receiver_thread_id, receiver_agent_path }),
                MessageAction::Load(receiver_thread_id),
            ),
        },
        (
            MessageState::Loading { content, receiver_thread_id, receiver_agent_path },
            MessageEvent::Loaded { ok: true },
        ) => {
            if interrupt {
                (
                    Some(
                        MessageState::Interrupting {
                            content,
                            receiver_thread_id,
                            receiver_agent_path,
                        },
                    ),
                    MessageAction::Interrupt(receiver_thread_id),
                )
            } else {
                let path = receiver_agent_path.clone();
                (
                    Some(MessageState::Composing { receiver_thread_id, receiver_agent_path }),
                    MessageAction::Compose { receiver_agent_path: path, content },
                )
            }
        },
        (
            MessageState::Interrupting { content, receiver_thread_id, receiver_agent_path },
            MessageEvent::Interrupted { ok: true },
        ) => {
            let path = receiver_agent_path.clone();
            (
                Some(MessageState::Composing { receiver_thread_id, receiver_agent_path }),
                MessageAction::Compose { receiver_agent_path: path, content },
            )
        },
        (
            MessageState::Composing { receiver_thread_id, receiver_agent_path },
            MessageEvent::Composed(communication),
        ) => {
            let context = AgentCommunicationContext { kind: mode.kind(), sender_thread_id };
            (
                Some(MessageState::Sending { receiver_thread_id, receiver_agent_path }),
                MessageAction::Send(receiver_thread_id, mode.apply(communication), context),
            )
        },
        (
            MessageState::Sending { receiver_thread_id, receiver_agent_path },
            MessageEvent::Sent { ok: true },
        ) => (
            Some(MessageState::Showing),
            MessageAction::ShowInteraction(receiver_thread_id, receiver_agent_path),
        ),
        (MessageState::Showing, MessageEvent::Shown) => (None, MessageAction::Return),
        _ => (None, MessageAction::Fail),
    }
}

/// Nothing is loaded, interrupted or sent on behalf of an agent for a receiver
/// that it may not address.
pub proof fn lemma_only_admitted_is_loaded(
    mode: MessageDeliveryMode,
    interrupt: bool,
    sender_thread_id: ThreadId,
    author: AgentPath,
    state: MessageState,
    event: MessageEvent,
    next: Option<MessageState>,
    action: MessageAction,
)
    requires
        message_step_ok(mode, interrupt, sender_thread_id, author, state, event, next, action),
        next matches Some(MessageState::Loading { .. }),
    ensures
        next->0->Loading_receiver_agent_path@ != root_path() || mode is QueueOnly,
        may_address(mode, author@, next->0->Loading_receiver_agent_path@),
{
}

/// What closing an agent reports.
#[derive(Debug)]
pub struct CloseAgentResult {
    pub previous_status: AgentStatus,
}

/// Checks that an agent does not close itself.
pub fn check_close_target(own_thread_id: ThreadId, agent_id: ThreadId) -> (result: Result<
    (),
    String,
>)
    ensures
        result is Err <==> agent_id == own_thread_id,
        result matches Err(message) ==> message@
            == "an agent cannot close itself; return your result and let the parent close you"@,
{
    if agent_id == own_thread_id {
        return Err(
            "an agent cannot close itself; return your result and let the parent close you".to_owned(),
        );
    }
    Ok(())
}

/// The start of a close, as it is shown.
#[derive(Debug)]
pub struct CollabCloseBeginEvent {
    pub call_id: String,
    pub started_at_ms: i64,
    pub sender_thread_id: ThreadId,
    pub receiver_thread_id: ThreadId,
}

/// The end of a close, as it is shown, whether it worked or not.
#[derive(Debug)]
pub struct CollabCloseEndEvent {
    pub call_id: String,
    pub completed_at_ms: i64,
    pub sender_thread_id: ThreadId,
    pub receiver_thread_id: ThreadId,
    pub receiver_agent_nickname: Option<String>,
    pub receiver_agent_role: Option<String>,
    pub status: AgentStatus,
}

/// The start of a close, as it is shown.
pub fn close_begin_event(
    call_id: String,
    started_at_ms: i64,
    sender_thread_id: ThreadId,
    receiver_thread_id: ThreadId,
) -> (result: CollabCloseBeginEvent)
    ensures
        result == (CollabCloseBeginEvent {
            call_id,
            started_at_ms,
            sender_thread_id,
            receiver_thread_id,
        }),
{
    CollabCloseBeginEvent { call_id, started_at_ms, sender_thread_id, receiver_thread_id }
}

/// The end of a close as it is shown, and what it reports: the status that
/// the agent had before, unless closing failed.
pub fn finish_close(
    call_id: String,
    completed_at_ms: i64,
    sender_thread_id: ThreadId,
    receiver_thread_id: ThreadId,
    receiver: AgentMetadata,
    previous_status: AgentStatus,
    closed: bool,
) -> (result: (CollabCloseEndEvent, Option<CloseAgentResult>))
    ensures
        result.0 == (CollabCloseEndEvent {
            call_id,
            completed_at_ms,
            sender_thread_id,
            receiver_thread_id,
            receiver_agent_nickname: receiver.agent_nickname,
            receiver_agent_role: receiver.agent_role,
            status: previous_status,
        }),
        result.1 == (if closed {
            Some(CloseAgentResult { previous_status })
        } else {
            None
        }),
{
    let status = previous_status.clone();
    let event = CollabCloseEndEvent {
        call_id,
        completed_at_ms,
        sender_thread_id,
        receiver_thread_id,
        receiver_agent_nickname: receiver.agent_nickname,
        receiver_agent_role: receiver.agent_role,
        status,
    };
    if closed {
        (event, Some(CloseAgentResult { previous_status }))
    } else {
        (event, None)
    }
}

/// How far the closing of an agent is.
#[derive(Debug)]
pub enum CloseState {
    /// The target is resolved.
    Resolving,
    /// The agent is looked up.
    Finding { agent_id: ThreadId },
    /// The agent's status is asked for.
    AskingStatus { agent_id: ThreadId, receiver: AgentMetadata },
    /// The start is shown.
    Beginning { agent_id: ThreadId, receiver: AgentMetadata, status: AgentStatus },
    /// The agent is closed.
    Closing { agent_id: ThreadId, receiver: AgentMetadata, status: AgentStatus },
    /// The end is shown.
    Ending { result: Option<CloseAgentResult> },
}

/// What the closing of an agent hears. `None` stands for a step that failed.
#[derive(Debug)]
pub enum CloseEvent {
    Resolved(Option<ThreadId>),
    Found(Option<AgentMetadata>),
    /// The status, and the time at which the close starts.
    Status { status: AgentStatus, started_at_ms: i64 },
    Shown,
    /// Whether the agent was closed, and when.
    Closed { ok: bool, completed_at_ms: i64 },
}

/// What the closing of an agent does next.
#[derive(Debug)]
pub enum CloseAction {
    /// Look up the agent of this thread.
    Find(ThreadId),
    AskStatus(ThreadId),
    ShowBegin(CollabCloseBeginEvent),
    Close(ThreadId),
    ShowEnd(CollabCloseEndEvent),
    Return(CloseAgentResult),
    /// Refuse the call, for this reason.
    Refuse(String),
    /// Fail with the error of the last step that failed.
    Fail,
}

/// The closing of an agent goes on as it should.
pub open spec fn close_step_ok(
    own_thread_id: ThreadId,
    call_id: Seq<char>,
    state: CloseState,
    event: CloseEvent,
    next: Option<CloseState>,
    action: CloseAction,
) -> bool {
    match (state, event) {
        (CloseState::Resolving, CloseEvent::Resolved(Some(agent_id))) => if agent_id
            == own_thread_id {
            &&& next is None
            &&& action matches CloseAction::Refuse(message) && message@
                == "an agent cannot close itself; return your result and let the parent close you"@
        } else {
            &&& next == Some(CloseState::Finding { agent_id })
            &&& action == CloseAction::Find(agent_id)
        },
        (CloseState::Finding { agent_id }, CloseEvent::Found(Some(receiver))) => {
            &&& next == Some(CloseState::AskingStatus { agent_id, receiver })
            &&& action == CloseAction::AskStatus(agent_id)
        },
        (
            CloseState::AskingStatus { agent_id, receiver },
            CloseEvent::Status { status, started_at_ms },
        ) => {
            &&& next == Some(CloseState::Beginning { agent_id, receiver, status })
            &&& action matches CloseAction::ShowBegin(shown)
            &&& shown.call_id@ == call_id
            &&& shown.started_at_ms == started_at_ms
            &&& shown.sender_thread_id == own_thread_id
            &&& shown.receiver_thread_id == agent_id
        },
        (CloseState::Beginning { agent_id, receiver, status }, CloseEvent::Shown) => {
            &&& next == Some(CloseState::Closing { agent_id, receiver, status })
            &&& action == CloseAction::Close(agent_id)
        },
        (
            CloseState::Closing { agent_id, receiver, status },
            CloseEvent::Closed { ok, completed_at_ms },
        ) => {
            &&& next == Some(
                CloseState::Ending {
                    result: if ok {
                        Some(CloseAgentResult { previous_status: status })
                    } else {
                        None
                    },
                },
            )
            &&& action matches CloseAction::ShowEnd(shown)
            &&& shown.call_id@ == call_id
            &&& shown.completed_at_ms == completed_at_ms
            &&& shown.sender_thread_id == own_thread_id
            &&& shown.receiver_thread_id == agent_id
            &&& shown.receiver_agent_nickname == receiver.agent_nickname
            &&& shown.receiver_agent_role == receiver.agent_role
            &&& shown.status == status
        },
        (CloseState::Ending { result }, CloseEvent::Shown) => {
            &&& next is None
            &&& match result {
                Some(result) => action == CloseAction::Return(result),
                None => action is Fail,
            }
        },
        _ => next is None && action is Fail,
    }
}

/// Goes on with closing an agent. An agent cannot close itself. The start and
/// the end are shown, the end also where closing failed; the report holds the
/// status that the agent had before. The result is the state to go on with, if
/// the call is not over, and what is done next.
pub fn handle_close_agent(
    own_thread_id: ThreadId,
    call_id: &str,
    state: CloseState,
    event: CloseEvent,
) -> (result: (Option<CloseState>, CloseAction))
    ensures
        close_step_ok(own_thread_id, call_id@, state, event, result.0, result.1),
{
    match (state, event) {
        (CloseState::Resolving, CloseEvent::Resolved(Some(agent_id))) => match check_close_target(
            own_thread_id,
            agent_id,
        ) {
            Ok(()) => (Some(CloseState::Finding { agent_id }), CloseAction::Find(agent_id)),
            Err(message) => (None, CloseAction::Refuse(message)),
        },
        (CloseState::Finding { agent_id }, CloseEvent::Found(Some(receiver))) => (
            Some(CloseState::AskingStatus { agent_id, receiver }),
            CloseAction::AskStatus(agent_id),
        ),
        (
            CloseState::AskingStatus { agent_id, receiver },
            CloseEvent::Status { status, started_at_ms },
        ) => {
            let shown = close_begin_event(
                call_id.to_owned(),
                started_at_ms,
                own_thread_id,
                agent_id,
            );
            (
                Some(CloseState::Beginning { agent_id, receiver, status }),
                CloseAction::ShowBegin(shown),
            )
        },
        (CloseState::Beginning { agent_id, receiver, status }, CloseEvent::Shown) => (
            Some(CloseState::Closing { agent_id, receiver, status }),
            CloseAction::Close(agent_id),
        ),
        (
            CloseState::Closing { agent_id, receiver, status },
            CloseEvent::Closed { ok, completed_at_ms },
        ) => {
            let (shown, result) = finish_close(
                call_id.to_owned(),
                completed_at_ms,
                own_thread_id,
                agent_id,
                receiver,
                status,
                ok,
            );
            (Some(CloseState::Ending { result }), CloseAction::ShowEnd(shown))
        },
        (CloseState::Ending { result }, CloseEvent::Shown) => match result {
            Some(result) => (None, CloseAction::Return(result)),
            None => (None, CloseAction::Fail),
        },
        _ => (None, CloseAction::Fail),
    }
}

/// An agent is never asked to close itself.
pub proof fn lemma_never_closes_itself(
    own_thread_id: ThreadId,
    call_id: Seq<char>,
    state: CloseState,
    event: CloseEvent,
    next: Option<CloseState>,
    action: CloseAction,
)
    requires
        close_step_ok(own_thread_id, call_id, state, event, next, action),
        not_own(state, own_thread_id),
    ensures
        next matches Some(state) ==> not_own(state, own_thread_id),
        action matches CloseAction::Close(id) ==> id != own_thread_id,
{
}

/// The target that a close has settled on is not the agent itself.
pub open spec fn not_own(state: CloseState, own_thread_id: ThreadId) -> bool {
    match state {
        CloseState::Finding { agent_id } => agent_id != own_thread_id,
        CloseState::AskingStatus { agent_id, .. } => agent_id != own_thread_id,
        CloseState::Beginning { agent_id, .. } => agent_id != own_thread_id,
        CloseState::Closing { agent_id, .. } => agent_id != own_thread_id,
        _ => true,
    }
}

/// The root agent may address every agent in either way.
pub proof fn lemma_root_addresses_all(mode: MessageDeliveryMode, receiver: Seq<char>)
    ensures
        may_address(mode, root_path(), receiver),
{
}

/// An agent cannot start a turn of an agent above it, unless it is the root.
pub proof fn lemma_no_turn_for_ancestors(author: Seq<char>, receiver: Seq<char>)
    requires
        author != root_path(),
        author != receiver,
        path_within(author, receiver),
    ensures
        !may_address(MessageDeliveryMode::TriggerTurn, author, receiver),
        may_address(MessageDeliveryMode::QueueOnly, author, receiver),
{
    if path_within(receiver, author) {
        lemma_path_within_antisymmetric(author, receiver);
    }
}

/// Agents of which neither lies below the other cannot address each other,
/// unless one is the root.
pub proof fn lemma_siblings_cannot_address(
    mode: MessageDeliveryMode,
    author: Seq<char>,
    receiver: Seq<char>,
)
    requires
        author != root_path(),
        !path_within(author, receiver),
        !path_within(receiver, author),
    ensures
        !may_address(mode, author, receiver),
{
}

/// Who may be sent a task may be sent a message.
pub proof fn lemma_tasks_need_more(author: Seq<char>, receiver: Seq<char>)
    requires
        may_address(MessageDeliveryMode::TriggerTurn, author, receiver),
    ensures
        may_address(MessageDeliveryMode::QueueOnly, author, receiver),
{
}

/// An agent may address itself and every agent below it, in either way.
pub proof fn lemma_descendants_can_be_addressed(
    mode: MessageDeliveryMode,
    author: Seq<char>,
    receiver: Seq<char>,
)
    requires
        path_within(receiver, author),
    ensures
        may_address(mode, author, receiver),
{
}

/// The content of a message in a state, as long as it has not been made into a
/// communication.
pub open spec fn content_in(state: MessageState) -> Option<String> {
    match state {
        MessageState::Resolving { content } => Some(content),
        MessageState::Finding { content, .. } => Some(content),
        MessageState::Loading { content, .. } => Some(content),
        MessageState::Interrupting { content, .. } => Some(content),
        _ => None,
    }
}

/// The thread that a message is for, once it was found.
pub open spec fn receiver_in(state: MessageState) -> Option<ThreadId> {
    match state {
        MessageState::Finding { receiver_thread_id, .. } => Some(receiver_thread_id),
        MessageState::Loading { receiver_thread_id, .. } => Some(receiver_thread_id),
        MessageState::Interrupting { receiver_thread_id, .. } => Some(receiver_thread_id),
        MessageState::Composing { receiver_thread_id, .. } => Some(receiver_thread_id),
        MessageState::Sending { receiver_thread_id, .. } => Some(receiver_thread_id),
        _ => None,
    }
}

/// The path of the agent that a message is for, once it was admitted.
pub open spec fn path_in(state: MessageState) -> Option<AgentPath> {
    match state {
        MessageState::Loading { receiver_agent_path, .. } => Some(receiver_agent_path),
        MessageState::Interrupting { receiver_agent_path, .. } => Some(receiver_agent_path),
        MessageState::Composing { receiver_agent_path, .. } => Some(receiver_agent_path),
        MessageState::Sending { receiver_agent_path, .. } => Some(receiver_agent_path),
        _ => None,
    }
}

/// From step to step a message keeps its content, the thread that its target
/// was resolved to, and the path of that thread's agent.
pub proof fn lemma_message_stays_the_same(
    mode: MessageDeliveryMode,
    interrupt: bool,
    sender_thread_id: ThreadId,
    author: AgentPath,
    state: MessageState,
    event: MessageEvent,
    next: Option<MessageState>,
    action: MessageAction,
)
    requires
        message_step_ok(mode, interrupt, sender_thread_id, author, state, event, next, action),
        next is Some,
    ensures
        content_in(next->0) is Some ==> content_in(next->0) == content_in(state),
        receiver_in(state) is Some && receiver_in(next->0) is Some ==> receiver_in(next->0)
            == receiver_in(state),
        receiver_in(state) is None && receiver_in(next->0) is Some ==> event
            == MessageEvent::Resolved(receiver_in(next->0)),
        path_in(state) is Some && path_in(next->0) is Some ==> path_in(next->0) == path_in(state),
        path_in(state) is None && path_in(next->0) is Some ==> event is Found && event->Found_0
            is Some && event->Found_0->0.agent_path == path_in(next->0),
{
}

/// What a message tool does concerns the receiver that was settled on: it is
/// found, loaded and stopped by its thread, stopped only where that was asked
/// for and after it was loaded, and the communication is made of the content
/// for the receiver's path.
pub proof fn lemma_steps_of_a_message(
    mode: MessageDeliveryMode,
    interrupt: bool,
    sender_thread_id: ThreadId,
    author: AgentPath,
    state: MessageState,
    event: MessageEvent,
    next: Option<MessageState>,
    action: MessageAction,
)
    requires
        message_step_ok(mode, interrupt, sender_thread_id, author, state, event, next, action),
    ensures
        action is Interrupt <==> interrupt && state is Loading && event == (MessageEvent::Loaded {
            ok: true,
        }),
        action matches MessageAction::Interrupt(id) ==> receiver_in(state) == Some(id),
        action matches MessageAction::Load(id) ==> receiver_in(state) == Some(id) && state
            is Finding,
        action matches MessageAction::Compose { receiver_agent_path, content } ==> path_in(state)
            == Some(receiver_agent_path) && content_in(state) == Some(content) && (state
            is Interrupting || (state is Loading && !interrupt)),
        action matches MessageAction::ShowInteraction(id, path) ==> state is Sending && event == (
        MessageEvent::Sent { ok: true }) && receiver_in(state) == Some(id) && path_in(state)
            == Some(path),
        action is Return <==> state is Showing && event is Shown,
        action is Return || action is Refuse || action is Fail <==> next is None,
{
}

/// What is sent goes to the receiver that was settled on, as it was composed
/// but for whether it starts a turn: a task does, a message does not. It is sent
/// in the name of the caller.
pub proof fn lemma_what_a_message_sends(
    mode: MessageDeliveryMode,
    interrupt: bool,
    sender_thread_id: ThreadId,
    author: AgentPath,
    state: MessageState,
    event: MessageEvent,
    next: Option<MessageState>,
    action: MessageAction,
)
    requires
        message_step_ok(mode, interrupt, sender_thread_id, author, state, event, next, action),
    ensures
        action is Send <==> state is Composing && event is Composed,
        action matches MessageAction::Send(id, sent, context) ==> {
            let composed = event->Composed_0;
            &&& receiver_in(state) == Some(id)
            &&& sent.author == composed.author
            &&& sent.recipient == composed.recipient
            &&& sent.other_recipients == composed.other_recipients
            &&& sent.content == composed.content
            &&& sent.encrypted_content == composed.encrypted_content
            &&& mode is TriggerTurn ==> sent.trigger_turn && context.kind is Followup
            &&& mode is QueueOnly ==> !sent.trigger_turn && context.kind is Message
            &&& context.sender_thread_id == sender_thread_id
        },
{
}

/// The agent that a close has settled on.
pub open spec fn closing(state: CloseState) -> Option<ThreadId> {
    match state {
        CloseState::Finding { agent_id } => Some(agent_id),
        CloseState::AskingStatus { agent_id, .. } => Some(agent_id),
        CloseState::Beginning { agent_id, .. } => Some(agent_id),
        CloseState::Closing { agent_id, .. } => Some(agent_id),
        _ => None,
    }
}

/// A close concerns one agent throughout, the one that its target was resolved
/// to. It is closed after the start was shown, and what is reported in the end
/// is the status that it had before, where it could be closed; the close fails
/// where it could not.
pub proof fn lemma_course_of_a_close(
    own_thread_id: ThreadId,
    call_id: Seq<char>,
    state: CloseState,
    event: CloseEvent,
    next: Option<CloseState>,
    action: CloseAction,
)
    requires
        close_step_ok(own_thread_id, call_id, state, event, next, action),
    ensures
        next matches Some(after) ==> {
            &&& closing(after) is Some && closing(state) is Some ==> closing(after) == closing(
                state,
            )
            &&& closing(after) is Some && closing(state) is None ==> event == CloseEvent::Resolved(
                closing(after),
            )
            &&& after matches CloseState::Beginning { status, .. } ==> event is Status
                && event->Status_status == status
            &&& after matches CloseState::Closing { status, .. } ==> state
                matches CloseState::Beginning { status: before, .. } && before == status
            &&& after matches CloseState::Ending { result } ==> state
                matches CloseState::Closing { status, .. } && (event->ok ==> result == Some(
                CloseAgentResult { previous_status: status },
            )) && (!event->ok ==> result is None)
        },
        action matches CloseAction::Close(id) ==> closing(state) == Some(id) && state
            is Beginning && event is Shown,
        action is Return <==> state is Ending && event is Shown && state->result is Some,
        action matches CloseAction::Return(result) ==> state->result == Some(result),
{
}

/// What is shown of a close names the caller, the agent, the call and the time,
/// and at the end the agent's names and the status that it had before.
pub proof fn lemma_what_a_close_shows(
    own_thread_id: ThreadId,
    call_id: Seq<char>,
    state: CloseState,
    event: CloseEvent,
    next: Option<CloseState>,
    action: CloseAction,
)
    requires
        close_step_ok(own_thread_id, call_id, state, event, next, action),
    ensures
        action matches CloseAction::ShowBegin(shown) ==> closing(state) == Some(
            shown.receiver_thread_id,
        ) && shown.sender_thread_id == own_thread_id && shown.call_id@ == call_id && event
            is Status && shown.started_at_ms == event->started_at_ms,
        action matches CloseAction::ShowEnd(shown) ==> closing(state) == Some(
            shown.receiver_thread_id,
        ) && shown.sender_thread_id == own_thread_id && shown.call_id@ == call_id && event
            is Closed && shown.completed_at_ms == event->completed_at_ms && state is Closing
            && shown.status == state->Closing_status && shown.receiver_agent_nickname
            == state->Closing_receiver.agent_nickname && shown.receiver_agent_role
            == state->Closing_receiver.agent_role,
{
}

/// A refusal names the receiver and, behind it, the agent that may not address
/// it.
pub proof fn lemma_refusal_names_both(author: Seq<char>, receiver: Seq<char>)
    ensures
        ("target agent `"@ + receiver + "` is outside the current agent lineage `"@ + author
            + "`"@).is_prefix_of(lineage_message(author, receiver)),
{
    reveal_strlit("`");
    reveal_strlit(
        "`; subagents can only message agents in their descendant subtree, or queue messages to an ancestor",
    );
    let head = "target agent `"@ + receiver + "` is outside the current agent lineage `"@ + author
        + "`"@;
    let text = lineage_message(author, receiver);
    assert(text.subrange(0, head.len() as int) =~= head);
}

} // verus!
