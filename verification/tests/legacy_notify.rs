use codex_agents::agent::ThreadId;
use codex_agents::hooks::legacy_notify::{
    legacy_notify_json, notify_hook_name, notify_outcome, user_notification_json,
    wait_for_legacy_notify_child, HookEvent, HookEventAfterAgent, HookPayload, NotifyChildAction,
    NotifyChildEvent, NotifyOutcome, UserNotification,
};
use serde_json::Value;

fn text(value: &str) -> Value {
    Value::String(value.to_string())
}

fn expected_notification_json() -> Value {
    let mut object = serde_json::Map::new();
    object.insert("type".to_string(), text("agent-turn-complete"));
    object.insert("thread-id".to_string(), text("b5f6c1c2-1111-2222-3333-444455556666"));
    object.insert("turn-id".to_string(), text("12345"));
    object.insert("cwd".to_string(), text("/Users/example/project"));
    object.insert("client".to_string(), text("codex-tui"));
    object.insert(
        "input-messages".to_string(),
        Value::Array(vec![text("Rename `foo` to `bar` and update the callsites.")]),
    );
    object.insert(
        "last-assistant-message".to_string(),
        text("Rename complete and verified `cargo build` succeeds."),
    );
    Value::Object(object)
}

#[test]
fn test_user_notification() {
    let notification = UserNotification::AgentTurnComplete {
        thread_id: "b5f6c1c2-1111-2222-3333-444455556666".to_string(),
        turn_id: "12345".to_string(),
        cwd: "/Users/example/project".to_string(),
        client: Some("codex-tui".to_string()),
        input_messages: vec!["Rename `foo` to `bar` and update the callsites.".to_string()],
        last_assistant_message: Some(
            "Rename complete and verified `cargo build` succeeds.".to_string(),
        ),
    };
    let serialized = user_notification_json(&notification).expect("notification text");
    let actual: Value = serde_json::from_str(&serialized).expect("json");
    assert_eq!(actual, expected_notification_json());
}

fn payload(client: Option<&str>, messages: Vec<&str>, last: Option<&str>) -> HookPayload {
    HookPayload {
        session_id: ThreadId { bits: 7 },
        cwd: "/Users/example/project".to_string(),
        client: client.map(str::to_string),
        hook_event: HookEvent::AfterAgent {
            event: HookEventAfterAgent {
                thread_id: ThreadId { bits: 0xb5f6c1c2_1111_2222_3333_444455556666 },
                turn_id: "12345".to_string(),
                input_messages: messages.into_iter().map(str::to_string).collect(),
                last_assistant_message: last.map(str::to_string),
            },
        },
    }
}

#[test]
fn legacy_notify_json_matches_historical_wire_shape() {
    let payload = payload(
        Some("codex-tui"),
        vec!["Rename `foo` to `bar` and update the callsites."],
        Some("Rename complete and verified `cargo build` succeeds."),
    );

    let serialized = legacy_notify_json(&payload).expect("notification text");
    let actual: Value = serde_json::from_str(&serialized).expect("json");
    assert_eq!(actual, expected_notification_json());
}

#[test]
fn notification_without_client_leaves_it_out() {
    let serialized = legacy_notify_json(&payload(None, vec![], None)).expect("notification text");
    assert_eq!(
        serialized,
        "{\"type\":\"agent-turn-complete\",\"thread-id\":\"b5f6c1c2-1111-2222-3333-444455556666\",\"turn-id\":\"12345\",\"cwd\":\"/Users/example/project\",\"input-messages\":[],\"last-assistant-message\":null}"
    );
}

#[test]
fn notification_texts_are_escaped_like_any_json() {
    let odd = "quote \" slash \\ newline \n tab \t bell \u{7} nul \u{0} e\u{301} \u{1f600} \u{7f}";
    let serialized =
        legacy_notify_json(&payload(Some(odd), vec![odd, "plain"], Some(odd))).expect("text");
    let actual: Value = serde_json::from_str(&serialized).expect("json");
    assert_eq!(actual["client"], text(odd));
    assert_eq!(actual["input-messages"][0], text(odd));
    assert_eq!(actual["input-messages"][1], text("plain"));
    assert_eq!(actual["last-assistant-message"], text(odd));
    assert!(serialized.contains("\\u0007"));
    assert!(serialized.contains("\\n tab \\t"));
}

#[test]
fn hook_goes_on_after_every_failure() {
    assert_eq!(notify_hook_name(), "legacy_notify");
    assert_eq!(notify_outcome(false, false), NotifyOutcome::Success);
    assert_eq!(notify_outcome(true, true), NotifyOutcome::Success);
    assert_eq!(notify_outcome(true, false), NotifyOutcome::FailedContinue);
}

#[test]
fn hung_notify_child_is_killed_and_reaped() {
    assert_eq!(
        wait_for_legacy_notify_child(NotifyChildEvent::TimedOut),
        NotifyChildAction::WarnAndKill
    );
    assert_eq!(
        wait_for_legacy_notify_child(NotifyChildEvent::Killed { ok: true }),
        NotifyChildAction::Reap
    );
    assert_eq!(
        wait_for_legacy_notify_child(NotifyChildEvent::Reaped { ok: true }),
        NotifyChildAction::Done
    );
    assert_eq!(
        wait_for_legacy_notify_child(NotifyChildEvent::Exited { success: true }),
        NotifyChildAction::Done
    );
    assert_eq!(
        wait_for_legacy_notify_child(NotifyChildEvent::WaitFailed),
        NotifyChildAction::WarnAndStop
    );
}
