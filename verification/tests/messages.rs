use codex_agents::agent::{AgentMetadata, AgentPath, AgentStatus, ThreadId};
use codex_agents::communication::{
    last_task_message_from_communication, non_empty_task_message, AgentCommunicationKind,
    InterAgentCommunication, MessageDeliveryMode,
};
use codex_agents::message_tool::{
    admit_message, begin_message, check_close_target, handle_close_agent,
    handle_message_string_tool, message_content, validate_message_target_lineage, CloseAction,
    CloseEvent, CloseState, MessageAction, MessageAdmission, MessageEvent, MessageState,
};
use codex_agents::tasks::{
    last_task_message_for_thread, last_task_message_from_item, render_input_preview,
    render_user_inputs, split_leading_non_user_input, ContentItem, HistoryItem, TurnInput,
    UserInput,
};

fn path(text: &str) -> AgentPath {
    AgentPath::from_text(text).expect("valid path")
}

#[test]
fn root_can_message_any_agent_lineage() {
    let root = AgentPath::root();
    let receiver = path("/root/dispatcher/review");

    assert_eq!(
        validate_message_target_lineage(MessageDeliveryMode::TriggerTurn, &root, &receiver),
        Ok(())
    );
}

#[test]
fn subagent_can_message_own_descendant_lineage() {
    let dispatcher = path("/root/dispatcher");
    let review = path("/root/dispatcher/review");

    assert_eq!(
        validate_message_target_lineage(MessageDeliveryMode::TriggerTurn, &dispatcher, &review),
        Ok(())
    );
}

#[test]
fn subagent_can_queue_message_to_ancestor_lineage() {
    let dispatcher = path("/root/dispatcher");
    let review = path("/root/dispatcher/review");

    assert_eq!(
        validate_message_target_lineage(MessageDeliveryMode::QueueOnly, &review, &dispatcher),
        Ok(())
    );
}

#[test]
fn subagent_cannot_trigger_ancestor_lineage() {
    let dispatcher = path("/root/dispatcher");
    let review = path("/root/dispatcher/review");

    assert_eq!(
        validate_message_target_lineage(MessageDeliveryMode::TriggerTurn, &review, &dispatcher),
        Err(
            "target agent `/root/dispatcher` is outside the current agent lineage `/root/dispatcher/review`; subagents can only message agents in their descendant subtree, or queue messages to an ancestor"
                .to_string()
        )
    );
}

#[test]
fn subagent_cannot_message_sibling_descendant_lineage() {
    let replacement = path("/root/dispatcher_b");
    let old_review = path("/root/dispatcher/review");

    assert_eq!(
        validate_message_target_lineage(MessageDeliveryMode::TriggerTurn, &replacement, &old_review),
        Err(
            "target agent `/root/dispatcher/review` is outside the current agent lineage `/root/dispatcher_b`; subagents can only message agents in their descendant subtree, or queue messages to an ancestor"
                .to_string()
        )
    );
}

#[test]
fn subagent_cannot_queue_message_to_sibling_descendant_lineage() {
    let replacement = path("/root/dispatcher_b");
    let old_review = path("/root/dispatcher/review");

    assert_eq!(
        validate_message_target_lineage(MessageDeliveryMode::QueueOnly, &replacement, &old_review),
        Err(
            "target agent `/root/dispatcher/review` is outside the current agent lineage `/root/dispatcher_b`; subagents can only message agents in their descendant subtree, or queue messages to an ancestor"
                .to_string()
        )
    );
}

#[test]
fn split_leading_non_user_input_preserves_user_input_boundary() {
    let response_item = || {
        TurnInput::ResponseItem(HistoryItem::Message {
            turn_boundary: false,
            role: "user".to_string(),
            content: vec![ContentItem::InputText { communication: None }],
            user_inputs: Some(vec![UserInput::Text { text: "synthetic wake".to_string() }]),
        })
    };
    let first_mail = || {
        TurnInput::InterAgentCommunication(InterAgentCommunication::new(
            path("/root/worker"),
            AgentPath::root(),
            Vec::new(),
            "first".to_string(),
            true,
        ))
    };
    let second_mail = || {
        TurnInput::InterAgentCommunication(InterAgentCommunication::new(
            path("/root/inspector"),
            AgentPath::root(),
            Vec::new(),
            "second".to_string(),
            false,
        ))
    };
    let user_input = || TurnInput::UserInput {
        content: vec![UserInput::Text { text: "operator steer".to_string() }],
    };

    let (early_input, deferred_input) = split_leading_non_user_input(vec![
        response_item(),
        first_mail(),
        user_input(),
        second_mail(),
    ]);

    assert_eq!(
        format!("{early_input:?}"),
        format!("{:?}", vec![response_item(), first_mail()])
    );
    assert_eq!(
        format!("{deferred_input:?}"),
        format!("{:?}", vec![user_input(), second_mail()])
    );
}

#[test]
fn blank_messages_are_refused() {
    assert_eq!(message_content(" hi ".to_string()), Ok(" hi ".to_string()));
    assert_eq!(
        message_content(" \n\t".to_string()),
        Err("Empty message can't be sent to an agent".to_string())
    );
    assert!(begin_message("  ".to_string()).is_err());
}

fn known(agent_path: Option<&str>) -> AgentMetadata {
    AgentMetadata {
        agent_path: agent_path.map(path),
        agent_nickname: Some("Nick".to_string()),
        agent_role: Some("worker".to_string()),
        ..AgentMetadata::default()
    }
}

#[test]
fn receivers_are_admitted_by_path_and_lineage() {
    let author = path("/root/a");
    match admit_message(MessageDeliveryMode::TriggerTurn, &author, &known(Some("/root/a/b"))) {
        MessageAdmission::Admitted(receiver) => assert_eq!(receiver.as_str(), "/root/a/b"),
        MessageAdmission::Refused(message) => panic!("{message}"),
    }
    let refusals = [
        (None, "target agent is missing an agent_path"),
        (Some("/root"), "Follow-up tasks can't target the root agent"),
    ];
    for (receiver, expected) in refusals {
        match admit_message(MessageDeliveryMode::TriggerTurn, &author, &known(receiver)) {
            MessageAdmission::Refused(message) => assert_eq!(message, expected),
            MessageAdmission::Admitted(_) => panic!("should be refused"),
        }
    }
    assert!(matches!(
        admit_message(MessageDeliveryMode::QueueOnly, &author, &known(Some("/root"))),
        MessageAdmission::Admitted(_)
    ));
}

#[test]
fn message_call_runs_from_target_to_activity() {
    let author = path("/root/a");
    let sender = ThreadId { bits: 1 };
    let receiver = ThreadId { bits: 2 };
    let go = |state: MessageState, event: MessageEvent| {
        handle_message_string_tool(
            MessageDeliveryMode::TriggerTurn,
            true,
            sender,
            &author,
            state,
            event,
        )
    };
    let (state, action) = begin_message("do it".to_string()).expect("message");
    assert!(matches!(action, MessageAction::Resolve));
    let (state, action) = go(state, MessageEvent::Resolved(Some(receiver)));
    assert!(matches!(action, MessageAction::Find(id) if id == receiver));
    let (state, action) =
        go(state.expect("state"), MessageEvent::Found(Some(known(Some("/root/a/b")))));
    assert!(matches!(action, MessageAction::Load(id) if id == receiver));
    let (state, action) = go(state.expect("state"), MessageEvent::Loaded { ok: true });
    assert!(matches!(action, MessageAction::Interrupt(id) if id == receiver));
    let (state, action) = go(state.expect("state"), MessageEvent::Interrupted { ok: true });
    let communication = match action {
        MessageAction::Compose { receiver_agent_path, content } => {
            InterAgentCommunication::new(author.clone(), receiver_agent_path, vec![], content, false)
        }
        _ => panic!("a communication is made"),
    };
    let (state, action) = go(state.expect("state"), MessageEvent::Composed(communication));
    match action {
        MessageAction::Send(id, communication, context) => {
            assert_eq!(id, receiver);
            assert!(communication.trigger_turn);
            assert_eq!(communication.content, "do it");
            assert_eq!(context.kind, AgentCommunicationKind::Followup);
            assert_eq!(context.sender_thread_id, sender);
        }
        _ => panic!("the message is sent"),
    }
    let (state, action) = go(state.expect("state"), MessageEvent::Sent { ok: true });
    assert!(matches!(
        action,
        MessageAction::ShowInteraction(id, shown) if id == receiver && shown.as_str() == "/root/a/b"
    ));
    let (state, action) = go(state.expect("state"), MessageEvent::Shown);
    assert!(state.is_none());
    assert!(matches!(action, MessageAction::Return));
}

#[test]
fn message_call_stops_at_the_first_failure() {
    let author = path("/root/a");
    let go = |state: MessageState, event: MessageEvent| {
        handle_message_string_tool(
            MessageDeliveryMode::QueueOnly,
            false,
            ThreadId { bits: 1 },
            &author,
            state,
            event,
        )
    };
    let resolving = || MessageState::Resolving { content: "x".to_string() };
    let (state, action) = go(resolving(), MessageEvent::Resolved(None));
    assert!(state.is_none() && matches!(action, MessageAction::Fail));
    let finding =
        MessageState::Finding { content: "x".to_string(), receiver_thread_id: ThreadId { bits: 2 } };
    let (state, action) = go(finding, MessageEvent::Found(Some(known(Some("/root/b")))));
    assert!(state.is_none() && matches!(action, MessageAction::Refuse(_)));
    let loading = || MessageState::Loading {
        content: "x".to_string(),
        receiver_thread_id: ThreadId { bits: 2 },
        receiver_agent_path: path("/root/a/b"),
    };
    let (state, action) = go(loading(), MessageEvent::Loaded { ok: false });
    assert!(state.is_none() && matches!(action, MessageAction::Fail));
    let (state, action) = go(loading(), MessageEvent::Loaded { ok: true });
    assert!(state.is_some() && matches!(action, MessageAction::Compose { .. }));
    let (state, action) = go(loading(), MessageEvent::Shown);
    assert!(state.is_none() && matches!(action, MessageAction::Fail));
}

#[test]
fn agents_do_not_close_themselves() {
    let own = ThreadId { bits: 1 };
    assert_eq!(check_close_target(own, ThreadId { bits: 2 }), Ok(()));
    assert_eq!(
        check_close_target(own, own),
        Err("an agent cannot close itself; return your result and let the parent close you"
            .to_string())
    );
    let (state, action) =
        handle_close_agent(own, "call", CloseState::Resolving, CloseEvent::Resolved(Some(own)));
    assert!(state.is_none() && matches!(action, CloseAction::Refuse(_)));
}

#[test]
fn close_call_shows_both_ends_and_reports_the_old_status() {
    let own = ThreadId { bits: 1 };
    let target = ThreadId { bits: 2 };
    for ok in [true, false] {
        let go = |state: CloseState, event: CloseEvent| handle_close_agent(own, "call", state, event);
        let (state, action) = go(CloseState::Resolving, CloseEvent::Resolved(Some(target)));
        assert!(matches!(action, CloseAction::Find(id) if id == target));
        let (state, action) =
            go(state.expect("state"), CloseEvent::Found(Some(known(Some("/root/a")))));
        assert!(matches!(action, CloseAction::AskStatus(id) if id == target));
        let (state, action) = go(
            state.expect("state"),
            CloseEvent::Status { status: AgentStatus::Running, started_at_ms: 10 },
        );
        match action {
            CloseAction::ShowBegin(shown) => {
                assert_eq!(shown.call_id, "call");
                assert_eq!(shown.started_at_ms, 10);
                assert_eq!((shown.sender_thread_id, shown.receiver_thread_id), (own, target));
            }
            _ => panic!("the start is shown"),
        }
        let (state, action) = go(state.expect("state"), CloseEvent::Shown);
        assert!(matches!(action, CloseAction::Close(id) if id == target));
        let (state, action) =
            go(state.expect("state"), CloseEvent::Closed { ok, completed_at_ms: 20 });
        match action {
            CloseAction::ShowEnd(shown) => {
                assert_eq!(shown.completed_at_ms, 20);
                assert_eq!(shown.receiver_agent_nickname.as_deref(), Some("Nick"));
                assert!(matches!(shown.status, AgentStatus::Running));
            }
            _ => panic!("the end is shown"),
        }
        let (state, action) = go(state.expect("state"), CloseEvent::Shown);
        assert!(state.is_none());
        match action {
            CloseAction::Return(result) => {
                assert!(ok);
                assert!(matches!(result.previous_status, AgentStatus::Running));
            }
            CloseAction::Fail => assert!(!ok),
            _ => panic!("the call is over"),
        }
    }
}

#[test]
fn task_messages_come_from_text_alone() {
    let plain = |content: &str, encrypted: Option<&str>| {
        let mut communication = InterAgentCommunication::new(
            AgentPath::root(),
            path("/root/a"),
            vec![],
            content.to_string(),
            true,
        );
        communication.encrypted_content = encrypted.map(str::to_string);
        communication
    };
    assert_eq!(
        last_task_message_from_communication(&plain(" task ", None)),
        Some(" task ".to_string())
    );
    assert_eq!(non_empty_task_message(" ".to_string()), Some(" ".to_string()));
    assert_eq!(non_empty_task_message(String::new()), None);
    assert_eq!(last_task_message_from_communication(&plain("", None)), None);
    assert_eq!(last_task_message_from_communication(&plain("task", Some("sealed"))), None);
    let applied = MessageDeliveryMode::QueueOnly.apply(plain("x", None));
    assert!(!applied.trigger_turn);
    assert_eq!(MessageDeliveryMode::QueueOnly.kind(), AgentCommunicationKind::Message);
}

#[test]
fn inputs_are_rendered_one_per_line() {
    let inputs = vec![
        UserInput::Text { text: "look".to_string() },
        UserInput::Image,
        UserInput::LocalImage { path: "/i.png".to_string() },
        UserInput::Audio,
        UserInput::LocalAudio { path: "/a.wav".to_string() },
        UserInput::Skill { name: "s".to_string(), path: "/s".to_string() },
        UserInput::Mention { name: "m".to_string(), path: "/m".to_string() },
        UserInput::Other,
    ];
    assert_eq!(
        render_user_inputs(&inputs),
        "look\n[image]\n[local_image:/i.png]\n[audio]\n[local_audio:/a.wav]\n[skill:$s](/s)\n[mention:$m](/m)\n[input]"
    );
    assert_eq!(render_input_preview(&inputs), render_user_inputs(&inputs));
}

#[test]
fn last_task_of_a_history_is_the_latest_boundary() {
    let task = |boundary: bool, text: &str| HistoryItem::Message {
        turn_boundary: boundary,
        role: "user".to_string(),
        content: vec![ContentItem::Other],
        user_inputs: Some(vec![UserInput::Text { text: text.to_string() }]),
    };
    let mail = HistoryItem::Message {
        turn_boundary: true,
        role: "assistant".to_string(),
        content: vec![ContentItem::OutputText { communication: Some("mailed".to_string()) }],
        user_inputs: None,
    };
    assert_eq!(last_task_message_from_item(&task(true, "a")), Some("a".to_string()));
    assert_eq!(last_task_message_from_item(&task(false, "a")), None);
    assert_eq!(last_task_message_from_item(&mail), Some("mailed".to_string()));
    assert_eq!(last_task_message_from_item(&HistoryItem::Other), None);
    assert_eq!(
        last_task_message_for_thread(&vec![task(true, "first"), task(true, "second"), task(false, "x")]),
        Some("second".to_string())
    );
    assert_eq!(last_task_message_for_thread(&vec![]), None);
}
