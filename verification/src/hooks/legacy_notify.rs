//! The notification that a configured command gets when an agent's turn is
//! complete.

use vstd::prelude::*;
use crate::agent::{thread_id_text, ThreadId};
use crate::hooks::model::clone_texts;
use crate::json::{json_array, json_items, json_nullable, json_string, string_to_json};
use crate::text::{opt_text, texts};

verus! {

/// How long the command may run, in seconds.
pub const LEGACY_NOTIFY_TIMEOUT_SEC: u64 = 5;

/// A turn that an agent completed.
#[derive(Debug)]
pub struct HookEventAfterAgent {
    pub thread_id: ThreadId,
    pub turn_id: String,
    pub input_messages: Vec<String>,
    pub last_assistant_message: Option<String>,
}

/// What happened.
#[derive(Debug)]
pub enum HookEvent {
    AfterAgent { event: HookEventAfterAgent },
}

/// What happened, and where.
#[derive(Debug)]
pub struct HookPayload {
    pub session_id: ThreadId,
    pub cwd: String,
    pub client: Option<String>,
    pub hook_event: HookEvent,
}

/// What the command is told, as its last argument.
#[derive(Debug)]
pub enum UserNotification {
    AgentTurnComplete {
        thread_id: String,
        turn_id: String,
        cwd: String,
        client: Option<String>,
        input_messages: Vec<String>,
        last_assistant_message: Option<String>,
    },
}

/// What the command is told, as JSON: an object with a type and the fields in
/// a fixed order. A client that is not known is left out.
pub open spec fn turn_complete_json(
    thread_id: Seq<char>,
    turn_id: Seq<char>,
    cwd: Seq<char>,
    client: Option<Seq<char>>,
    input_messages: Seq<Seq<char>>,
    last_assistant_message: Option<Seq<char>>,
) -> Seq<char> {
    "{\"type\":\"agent-turn-complete\",\"thread-id\":"@ + json_string(thread_id)
        + ",\"turn-id\":"@ + json_string(turn_id) + ",\"cwd\":"@ + json_string(cwd) + (
    match client {
        Some(client) => ",\"client\":"@ + json_string(client),
        None => Seq::empty(),
    }) + ",\"input-messages\":"@ + json_array(input_messages) + ",\"last-assistant-message\":"@
        + json_nullable(last_assistant_message) + "}"@
}

/// What the command is told, as JSON.
pub open spec fn notification_json(notification: UserNotification) -> Seq<char> {
    match notification {
        UserNotification::AgentTurnComplete {
            thread_id,
            turn_id,
            cwd,
            client,
            input_messages,
            last_assistant_message,
        } => turn_complete_json(
            thread_id@,
            turn_id@,
            cwd@,
            opt_text(client),
            texts(input_messages@),
            opt_text(last_assistant_message),
        ),
    }
}

fn append_json(out: &mut String, text: &str) -> (result: Result<(), serde_json::Error>)
    ensures
        result is Ok,
        final(out)@ == old(out)@ + json_string(text@),
{
    match string_to_json(text) {
        Ok(json) => {
            out.append(json.as_str());
            Ok(())
        },
        Err(error) => Err(error),
    }
}

fn array_to_json(list: &Vec<String>) -> (result: Result<String, serde_json::Error>)
    ensures
        result is Ok,
        result matches Ok(json) ==> json@ == json_array(texts(list@)),
{
    let ghost all = texts(list@);
    let mut out = String::new();
    out.push('[');
    let mut i: usize = 0;
    assert(out@ =~= seq!['['] + json_items(all.take(0)));
    while i < list.len()
        invariant
            i <= list.len(),
            all == texts(list@),
            out@ == seq!['['] + json_items(all.take(i as int)),
        decreases list.len() - i,
    {
        let ghost before = out@;
        if i > 0 {
            out.push(',');
        }
        match append_json(&mut out, list[i].as_str()) {
            Ok(()) => {},
            Err(error) => {
                return Err(error);
            },
        }
        proof {
            let next = all.take(i + 1);
            assert(next.drop_last() =~= all.take(i as int));
            assert(next.last() == list@[i as int]@);
            assert(all.take(i as int).len() == i);
            assert(out@ =~= seq!['['] + json_items(next));
        }
        i += 1;
    }
    assert(all.take(i as int) =~= all);
    out.push(']');
    assert(out@ =~= json_array(all));
    Ok(out)
}

/// What the command is told, as JSON.
pub fn user_notification_json(notification: &UserNotification) -> (result: Result<
    String,
    serde_json::Error,
>)
    ensures
        result is Ok,
        result matches Ok(json) ==> json@ == notification_json(*notification),
{
    match notification {
        UserNotification::AgentTurnComplete {
            thread_id,
            turn_id,
            cwd,
            client,
            input_messages,
            last_assistant_message,
        } => {
            let mut out = "{\"type\":\"agent-turn-complete\",\"thread-id\":".to_owned();
            if let Err(error) = append_json(&mut out, thread_id.as_str()) {
                return Err(error);
            }
            out.append(",\"turn-id\":");
            if let Err(error) = append_json(&mut out, turn_id.as_str()) {
                return Err(error);
            }
            out.append(",\"cwd\":");
            if let Err(error) = append_json(&mut out, cwd.as_str()) {
                return Err(error);
            }
            let ghost before_client = out@;
            if let Some(client) = client {
                out.append(",\"client\":");
                if let Err(error) = append_json(&mut out, client.as_str()) {
                    return Err(error);
                }
            }
            assert(out@ =~= before_client + (match opt_text(*client) {
                Some(client) => ",\"client\":"@ + json_string(client),
                None => Seq::empty(),
            }));
            out.append(",\"input-messages\":");
            match array_to_json(input_messages) {
                Ok(json) => out.append(json.as_str()),
                Err(error) => {
                    return Err(error);
                },
            }
            out.append(",\"last-assistant-message\":");
            match last_assistant_message {
                Some(message) => {
                    if let Err(error) = append_json(&mut out, message.as_str()) {
                        return Err(error);
                    }
                },
                None => out.append("null"),
            }
            out.append("}");
            Ok(out)
        },
    }
}

/// What the command is told of a completed turn, as JSON.
pub fn legacy_notify_json(payload: &HookPayload) -> (result: Result<String, serde_json::Error>)
    ensures
        result is Ok,
        result matches Ok(json) ==> match payload.hook_event {
            HookEvent::AfterAgent { event } => json@ == turn_complete_json(
                thread_id_text(event.thread_id.bits),
                event.turn_id@,
                payload.cwd@,
                opt_text(payload.client),
                texts(event.input_messages@),
                opt_text(event.last_assistant_message),
            ),
        },
{
    match &payload.hook_event {
        HookEvent::AfterAgent { event } => {
            let notification = UserNotification::AgentTurnComplete {
                thread_id: event.thread_id.to_text(),
                turn_id: event.turn_id.clone(),
                cwd: payload.cwd.clone(),
                client: payload.client.clone(),
                input_messages: clone_texts(&event.input_messages),
                last_assistant_message: event.last_assistant_message.clone(),
            };
            user_notification_json(&notification)
        },
    }
}

/// The name of the hook that notifies the command.
pub fn notify_hook_name() -> (result: String)
    ensures
        result@ == "legacy_notify"@,
{
    "legacy_notify".to_owned()
}

/// What comes of notifying the command.
#[derive(Clone, Copy, Debug, PartialEq, Eq, Structural)]
pub enum NotifyOutcome {
    Success,
    FailedContinue,
}

/// What comes of notifying the command.
pub open spec fn outcome_of(command_configured: bool, spawned: bool) -> NotifyOutcome {
    if command_configured && !spawned {
        NotifyOutcome::FailedContinue
    } else {
        NotifyOutcome::Success
    }
}

/// What comes of notifying the command. Where none is configured there is
/// nothing to do.
pub fn notify_outcome(command_configured: bool, spawned: bool) -> (result: NotifyOutcome)
    ensures
        result == outcome_of(command_configured, spawned),
{
    if command_configured && !spawned {
        NotifyOutcome::FailedContinue
    } else {
        NotifyOutcome::Success
    }
}

/// What happens to the running command.
#[derive(Clone, Copy, Debug, PartialEq, Eq, Structural)]
pub enum NotifyChildEvent {
    Exited { success: bool },
    WaitFailed,
    TimedOut,
    Killed { ok: bool },
    Reaped { ok: bool },
}

/// What to do about the running command.
#[derive(Clone, Copy, Debug, PartialEq, Eq, Structural)]
pub enum NotifyChildAction {
    /// Nothing more.
    Done,
    /// Nothing more, but something went wrong that is to be told.
    WarnAndStop,
    /// Tell that it took too long, and kill it.
    WarnAndKill,
    /// Wait for the killed command to be gone.
    Reap,
}

/// What to do about the running command.
pub open spec fn child_next(event: NotifyChildEvent) -> NotifyChildAction {
    match event {
        NotifyChildEvent::Exited { success: true } => NotifyChildAction::Done,
        NotifyChildEvent::TimedOut => NotifyChildAction::WarnAndKill,
        NotifyChildEvent::Killed { ok: true } => NotifyChildAction::Reap,
        NotifyChildEvent::Reaped { ok: true } => NotifyChildAction::Done,
        _ => NotifyChildAction::WarnAndStop,
    }
}

/// What to do about the running command: one that takes too long is killed,
/// and waited for.
pub fn wait_for_legacy_notify_child(event: NotifyChildEvent) -> (result: NotifyChildAction)
    ensures
        result == child_next(event),
{
    match event {
        NotifyChildEvent::Exited { success: true } => NotifyChildAction::Done,
        NotifyChildEvent::TimedOut => NotifyChildAction::WarnAndKill,
        NotifyChildEvent::Killed { ok: true } => NotifyChildAction::Reap,
        NotifyChildEvent::Reaped { ok: true } => NotifyChildAction::Done,
        _ => NotifyChildAction::WarnAndStop,
    }
}

/// The command is told the thread, the turn, the directory, the messages and
/// the last answer, in this order and each under its own name; a client that is
/// known stands between the directory and the messages, and leaves everything
/// else as it is.
pub proof fn lemma_what_the_command_is_told(
    thread_id: Seq<char>,
    turn_id: Seq<char>,
    cwd: Seq<char>,
    client: Seq<char>,
    messages: Seq<Seq<char>>,
    last: Option<Seq<char>>,
)
    ensures
        ({
            let head = "{\"type\":\"agent-turn-complete\",\"thread-id\":"@ + json_string(thread_id)
                + ",\"turn-id\":"@ + json_string(turn_id) + ",\"cwd\":"@ + json_string(cwd);
            let tail = ",\"input-messages\":"@ + json_array(messages)
                + ",\"last-assistant-message\":"@ + json_nullable(last) + "}"@;
            &&& turn_complete_json(thread_id, turn_id, cwd, None, messages, last) == head + tail
            &&& turn_complete_json(thread_id, turn_id, cwd, Some(client), messages, last) == head
                + (",\"client\":"@ + json_string(client)) + tail
        }),
{
    let head = "{\"type\":\"agent-turn-complete\",\"thread-id\":"@ + json_string(thread_id)
        + ",\"turn-id\":"@ + json_string(turn_id) + ",\"cwd\":"@ + json_string(cwd);
    let tail = ",\"input-messages\":"@ + json_array(messages) + ",\"last-assistant-message\":"@
        + json_nullable(last) + "}"@;
    let known = ",\"client\":"@ + json_string(client);
    assert(turn_complete_json(thread_id, turn_id, cwd, None, messages, last) =~= head + tail);
    assert(turn_complete_json(thread_id, turn_id, cwd, Some(client), messages, last) =~= head
        + known + tail);
}

/// A notification is told by its own parts.
pub proof fn lemma_notification_by_its_parts(
    thread_id: String,
    turn_id: String,
    cwd: String,
    client: Option<String>,
    input_messages: Vec<String>,
    last_assistant_message: Option<String>,
)
    ensures
        notification_json(
            UserNotification::AgentTurnComplete {
                thread_id,
                turn_id,
                cwd,
                client,
                input_messages,
                last_assistant_message,
            },
        ) == turn_complete_json(
            thread_id@,
            turn_id@,
            cwd@,
            opt_text(client),
            texts(input_messages@),
            opt_text(last_assistant_message),
        ),
{
}

/// The notification fails only where a command is configured and could not be
/// started.
pub proof fn lemma_when_notifying_fails(spawned: bool)
    ensures
        outcome_of(true, spawned) is FailedContinue <==> !spawned,
        outcome_of(false, spawned) is Success,
{
}

/// A command that takes too long is killed and, once that worked, waited for;
/// one that ends well, or is gone after it was killed, needs nothing more; in
/// every other case something is told.
pub proof fn lemma_what_becomes_of_the_command(ok: bool)
    ensures
        child_next(NotifyChildEvent::TimedOut) is WarnAndKill,
        child_next(NotifyChildEvent::Killed { ok }) is Reap <==> ok,
        child_next(NotifyChildEvent::Reaped { ok }) is Done <==> ok,
        child_next(NotifyChildEvent::Exited { success: ok }) is Done <==> ok,
        !ok ==> child_next(NotifyChildEvent::Killed { ok }) is WarnAndStop && child_next(
            NotifyChildEvent::Reaped { ok },
        ) is WarnAndStop && child_next(NotifyChildEvent::Exited { success: ok }) is WarnAndStop,
        child_next(NotifyChildEvent::WaitFailed) is WarnAndStop,
{
}

} // verus!
