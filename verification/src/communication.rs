//! Messages between agents.

use vstd::prelude::*;
use crate::agent::{AgentPath, ThreadId};

verus! {

/// A message from one agent to another.
#[derive(Debug)]
pub struct InterAgentCommunication {
    pub author: AgentPath,
    pub recipient: AgentPath,
    pub other_recipients: Vec<AgentPath>,
    pub content: String,
    pub encrypted_content: Option<String>,
    pub trigger_turn: bool,
}

impl InterAgentCommunication {
    /// A message in plain text.
    pub fn new(
        author: AgentPath,
        recipient: AgentPath,
        other_recipients: Vec<AgentPath>,
        content: String,
        trigger_turn: bool,
    ) -> (result: InterAgentCommunication)
        ensures
            result == (InterAgentCommunication {
                author,
                recipient,
                other_recipients,
                content,
                encrypted_content: None,
                trigger_turn,
            }),
    {
        InterAgentCommunication {
            author,
            recipient,
            other_recipients,
            content,
            encrypted_content: None,
            trigger_turn,
        }
    }
}

/// What a message between agents is for.
#[derive(Clone, Copy, Debug, PartialEq, Eq, Structural)]
pub enum AgentCommunicationKind {
    Message,
    Followup,
    Result,
}

/// What a message is for and which thread sends it.
#[derive(Clone, Copy, Debug, PartialEq, Eq, Structural)]
pub struct AgentCommunicationContext {
    pub kind: AgentCommunicationKind,
    pub sender_thread_id: ThreadId,
}

/// Whether a message starts a turn of its recipient or waits for the next.
#[derive(Clone, Copy, Debug, PartialEq, Eq, Structural)]
pub enum MessageDeliveryMode {
    QueueOnly,
    TriggerTurn,
}

/// The message, set to start a turn or not as the mode says.
pub open spec fn applied(
    mode: MessageDeliveryMode,
    communication: InterAgentCommunication,
) -> InterAgentCommunication {
    InterAgentCommunication { trigger_turn: mode is TriggerTurn, ..communication }
}

/// What a message sent in the given mode is for.
pub open spec fn kind_of(mode: MessageDeliveryMode) -> AgentCommunicationKind {
    match mode {
        MessageDeliveryMode::QueueOnly => AgentCommunicationKind::Message,
        MessageDeliveryMode::TriggerTurn => AgentCommunicationKind::Followup,
    }
}

/// The task that a message gives its recipient, as far as it can be read.
pub open spec fn task_given(communication: InterAgentCommunication) -> Option<String> {
    if communication.encrypted_content is None && communication.content@.len() > 0 {
        Some(communication.content)
    } else {
        None
    }
}

impl MessageDeliveryMode {
    /// The message, set to start a turn or not as the mode says.
    pub fn apply(self, communication: InterAgentCommunication) -> (result: InterAgentCommunication)
        ensures
            result == applied(self, communication),
    {
        let mut communication = communication;
        communication.trigger_turn = matches!(self, MessageDeliveryMode::TriggerTurn);
        communication
    }

    /// What a message sent in this mode is for.
    pub fn kind(self) -> (result: AgentCommunicationKind)
        ensures
            result == kind_of(self),
    {
        match self {
            MessageDeliveryMode::QueueOnly => AgentCommunicationKind::Message,
            MessageDeliveryMode::TriggerTurn => AgentCommunicationKind::Followup,
        }
    }
}

/// The message, unless it is empty.
pub fn non_empty_task_message(message: String) -> (result: Option<String>)
    ensures
        result == (if message@.len() > 0 {
            Some(message)
        } else {
            None
        }),
{
    if message.as_str().unicode_len() == 0 {
        None
    } else {
        Some(message)
    }
}

/// The task that a message gives its recipient, as far as it can be read: an
/// encrypted message shows none, an empty one is none.
pub fn last_task_message_from_communication(communication: &InterAgentCommunication) -> (result:
    Option<String>)
    ensures
        result == task_given(*communication),
{
    if communication.encrypted_content.is_some() {
        return None;
    }
    non_empty_task_message(communication.content.clone())
}

/// A queued message starts no turn and is a message; one that starts a turn is
/// a follow-up. Nothing else of what is sent depends on the mode.
pub proof fn lemma_what_modes_do(communication: InterAgentCommunication)
    ensures
        !applied(MessageDeliveryMode::QueueOnly, communication).trigger_turn,
        applied(MessageDeliveryMode::TriggerTurn, communication).trigger_turn,
        kind_of(MessageDeliveryMode::QueueOnly) is Message,
        kind_of(MessageDeliveryMode::TriggerTurn) is Followup,
        forall|mode: MessageDeliveryMode|
            {
                let sent = #[trigger] applied(mode, communication);
                &&& sent.author == communication.author
                &&& sent.recipient == communication.recipient
                &&& sent.other_recipients == communication.other_recipients
                &&& sent.content == communication.content
                &&& sent.encrypted_content == communication.encrypted_content
            },
{
}

/// A message in plain text gives its content as a task, unless that is empty;
/// an encrypted one gives none that can be read.
pub proof fn lemma_which_messages_give_tasks(communication: InterAgentCommunication)
    ensures
        communication.encrypted_content is Some ==> task_given(communication) is None,
        communication.content@.len() == 0 ==> task_given(communication) is None,
        communication.encrypted_content is None && communication.content@.len() > 0 ==> task_given(
            communication,
        ) == Some(communication.content),
{
}

} // verus!
