use codex_agents::agent::{AgentPath, AgentStatus, SessionSource, ThreadId};
use codex_agents::communication::{AgentCommunicationKind, InterAgentCommunication};
use codex_agents::control::{finish_submission, ControlError, TaskMessageUpdate};
use codex_agents::notice::{
    child_has_scheduled_or_active_turn, ensure_completion_parent_loaded, has_active_descendants,
    notice_route, notify_completion_to_parent, notify_parent_with_contextual_message, ChildLookup,
    ContextualAction, ContextualTried, MultiAgentVersion, NoticeEnd, NoticeEvent, NoticeRoute,
    NoticeState, NoticeStep, ParentLoad, TellOutcome, TurnActivity,
};
use codex_agents::tasks::UserInput;
use codex_agents::wait_tool::AgentWaitOnWakeEnabledBehavior;
use codex_agents::wake::{
    AgentWakeDescendantPolicy, CompletionWatcherRearm, NoticeTicket, WakeState,
    WAKE_PARENT_ON_COMPLETION_DEFAULT,
};
use codex_agents::watch::{
    CompletionWatcherMode, WatchAction, WatchEvent, WatchPhase, LEAF_ONLY_POLL_MS, NOTICE_RETRY_MS,
};

fn id(bits: u128) -> ThreadId {
    ThreadId { bits }
}

fn path(text: &str) -> AgentPath {
    AgentPath::from_text(text).expect("valid path")
}

fn spawned(parent: u128, agent_path: &str) -> SessionSource {
    SessionSource::ThreadSpawn {
        parent_thread_id: id(parent),
        depth: 1,
        agent_path: Some(path(agent_path)),
        agent_nickname: None,
        agent_role: None,
    }
}

fn done() -> AgentStatus {
    AgentStatus::Completed(Some("result".to_string()))
}

fn armed(policy: AgentWakeDescendantPolicy) -> (WakeState, u64) {
    let mut wake = WakeState::new();
    let source = spawned(1, "/root/a");
    wake.register_parent_wake_subscription(id(2), Some(&source), true, policy);
    let arm = wake
        .maybe_start_completion_watcher(
            id(2),
            Some(&source),
            "/root/a".to_string(),
            Some(path("/root/a")),
        )
        .expect("a watcher starts");
    assert_eq!(arm.parent_thread_id, id(1));
    assert_eq!(arm.child_reference, "/root/a");
    (wake, arm.completion_watcher_generation)
}

fn begin(wake: &mut WakeState, child: u128, generation: u64) -> NoticeTicket {
    let ticket = wake
        .begin_completion_notice(id(child), generation, &done())
        .expect("the completion is to be told");
    assert_eq!(ticket.child_thread_id(), id(child));
    assert_eq!(ticket.completion_watcher_generation(), generation);
    ticket
}

fn rearm(wake: &mut WakeState, active_descendants: bool) -> CompletionWatcherRearm {
    wake.maybe_prepare_completion_watcher_rearm(
        id(2),
        true,
        false,
        Some(&done()),
        None,
        active_descendants,
    )
    .expect("the watcher is armed again")
}

#[test]
fn completion_is_told_exactly_once() {
    let (mut wake, generation) = armed(AgentWakeDescendantPolicy::Immediate);
    assert!(wake.begin_completion_notice(id(2), generation, &AgentStatus::Running).is_none());
    let ticket = begin(&mut wake, 2, generation);
    assert!(ticket.wakes_parent());
    assert!(wake.begin_completion_notice(id(2), generation, &done()).is_none());
    let end = wake.finish_completion_notice(ticket, TellOutcome::Failed);
    assert!(matches!(end, NoticeEnd::Released));
    let ticket = begin(&mut wake, 2, generation);
    let end = wake.finish_completion_notice(ticket, TellOutcome::Delivered);
    assert!(matches!(end, NoticeEnd::Settled));
    assert!(wake.begin_completion_notice(id(2), generation, &done()).is_none());
    assert!(wake
        .retry_notify_completion_to_parent(None, id(2), generation, &done())
        .is_none());
}

#[test]
fn completion_that_is_being_told_is_not_told_again_by_new_work() {
    let (mut wake, generation) = armed(AgentWakeDescendantPolicy::Immediate);
    let ticket = begin(&mut wake, 2, generation);
    assert!(rearm(&mut wake, false).previous_notice.is_none());
    assert!(wake.begin_completion_notice(id(2), generation, &done()).is_none());
    let end = wake.finish_completion_notice(ticket, TellOutcome::Delivered);
    assert!(matches!(end, NoticeEnd::Settled));
    let ticket = begin(&mut wake, 2, generation + 1);
    assert_eq!(ticket.completion_watcher_generation(), generation + 1);
}

#[test]
fn overtaken_notice_that_failed_stays_with_its_teller() {
    let (mut wake, generation) = armed(AgentWakeDescendantPolicy::Immediate);
    let ticket = begin(&mut wake, 2, generation);
    rearm(&mut wake, false);
    let NoticeEnd::Kept(kept) = wake.finish_completion_notice(ticket, TellOutcome::Failed) else {
        panic!("the notice stays with its teller");
    };
    assert_eq!(kept.completion_watcher_generation(), generation);
    let again = wake
        .retry_notify_completion_to_parent(Some(kept), id(2), generation, &done())
        .expect("the teller tries again");
    assert_eq!(again.completion_watcher_generation(), generation);
    let end = wake.finish_completion_notice(again, TellOutcome::Delivered);
    assert!(matches!(end, NoticeEnd::Settled));
}

#[test]
fn notice_of_a_forgotten_child_is_settled() {
    let (mut wake, generation) = armed(AgentWakeDescendantPolicy::Immediate);
    let ticket = begin(&mut wake, 2, generation);
    wake.clear_parent_wake_state(id(2));
    let end = wake.finish_completion_notice(ticket, TellOutcome::Failed);
    assert!(matches!(end, NoticeEnd::Settled));
}

#[test]
fn notice_with_nothing_to_tell_is_settled() {
    let (mut wake, generation) = armed(AgentWakeDescendantPolicy::Immediate);
    let ticket = begin(&mut wake, 2, generation);
    let end = wake.finish_completion_notice(ticket, TellOutcome::NothingToTell);
    assert!(matches!(end, NoticeEnd::Settled));
}

#[test]
fn notices_of_different_children_do_not_meet() {
    let (mut wake, generation) = armed(AgentWakeDescendantPolicy::Immediate);
    let other = spawned(1, "/root/b");
    wake.register_parent_wake_subscription(
        id(3),
        Some(&other),
        false,
        AgentWakeDescendantPolicy::Immediate,
    );
    let ticket = begin(&mut wake, 2, generation);
    let arm = wake
        .maybe_start_completion_watcher(id(3), Some(&other), "b".to_string(), None)
        .expect("a watcher starts");
    let second = begin(&mut wake, 3, arm.completion_watcher_generation);
    assert!(!second.wakes_parent());
    wake.finish_completion_notice(ticket, TellOutcome::Delivered);
    assert!(wake.begin_completion_notice(id(2), generation, &done()).is_none());
    let end = wake.finish_completion_notice(second, TellOutcome::Failed);
    assert!(matches!(end, NoticeEnd::Released));
}

#[test]
fn reuse_of_a_child_supersedes_its_watcher() {
    let (mut wake, generation) = armed(AgentWakeDescendantPolicy::Immediate);
    assert!(!wake.completion_watcher_superseded(id(2), generation));
    let first = rearm(&mut wake, false);
    assert_eq!(first.previous_generation, generation);
    assert_eq!(first.arm.completion_watcher_generation, generation + 1);
    let overtaken = first.previous_notice.expect("the work before is to be told");
    assert!(overtaken.wakes_parent());
    assert_eq!(overtaken.completion_watcher_generation(), generation);
    assert!(wake.completion_watcher_superseded(id(2), generation));
    assert!(wake.begin_completion_notice(id(2), generation, &done()).is_none());

    let ticket = begin(&mut wake, 2, generation + 1);
    wake.finish_completion_notice(ticket, TellOutcome::Delivered);
    assert!(rearm(&mut wake, false).previous_notice.is_none());
    let reused = wake
        .maybe_prepare_completion_watcher_rearm(id(2), true, true, Some(&done()), None, false)
        .expect("the watcher is armed again");
    assert!(reused.previous_notice.is_none());
}

#[test]
fn overtaken_work_whose_descendants_work_is_not_told() {
    let (mut wake, _) = armed(AgentWakeDescendantPolicy::LeafOnly);
    assert!(rearm(&mut wake, true).previous_notice.is_none());
    assert!(rearm(&mut wake, false).previous_notice.is_some());
    let (mut wake, _) = armed(AgentWakeDescendantPolicy::Immediate);
    assert!(rearm(&mut wake, true).previous_notice.is_some());
}

#[test]
fn running_work_keeps_its_watcher() {
    let (mut wake, generation) = armed(AgentWakeDescendantPolicy::Immediate);
    assert!(wake
        .maybe_prepare_completion_watcher_rearm(
            id(2),
            true,
            false,
            Some(&AgentStatus::Running),
            None,
            false
        )
        .is_none());
    assert!(wake
        .maybe_prepare_completion_watcher_rearm(id(2), false, false, Some(&done()), None, false)
        .is_none());
    assert!(!wake.completion_watcher_superseded(id(2), generation));
}

#[test]
fn preferences_outlive_nothing_but_their_thread() {
    let (mut wake, generation) = armed(AgentWakeDescendantPolicy::Immediate);
    let source = spawned(1, "/root/a");
    assert!(wake.wake_parent_on_completion_for_thread(id(2), Some(&source), false));
    wake.clear_parent_wake_state(id(2));
    assert!(!wake.wake_parent_on_completion_for_thread(id(2), Some(&source), false));
    assert!(wake.completion_watcher_superseded(id(2), generation));
    wake.restore_parent_wake_subscription_for_loaded_thread(
        id(2),
        &source,
        true,
        AgentWakeDescendantPolicy::LeafOnly,
    );
    assert!(wake.wake_parent_on_completion_for_thread(id(2), Some(&source), false));
    assert!(wake.leaf_only(id(2)));
    assert!(wake.leaf_only_wake_blocked(id(2), true));
    assert!(!wake.leaf_only_wake_blocked(id(2), false));
    assert!(!wake.wake_parent_on_completion_for_thread(id(7), Some(&SessionSource::Other), true));
}

#[test]
fn wake_enabled_children_are_the_subscribed_ones() {
    let (mut wake, generation) = armed(AgentWakeDescendantPolicy::Immediate);
    wake.register_parent_wake_subscription(
        id(3),
        Some(&spawned(1, "/root/b")),
        false,
        AgentWakeDescendantPolicy::Immediate,
    );
    wake.register_parent_wake_subscription(
        id(4),
        Some(&spawned(9, "/root/c")),
        true,
        AgentWakeDescendantPolicy::Immediate,
    );
    assert_eq!(
        wake.wake_enabled_children_for_parent(id(1), &vec![id(4), id(3), id(2), id(2)]),
        vec![id(2), id(2)]
    );
    assert!(wake.has_pending_wake_enabled_children_for_parent(id(1)));
    let ticket = begin(&mut wake, 2, generation);
    wake.finish_completion_notice(ticket, TellOutcome::Delivered);
    assert!(!wake.has_pending_wake_enabled_children_for_parent(id(1)));
}

#[test]
fn descendants_that_reuse_their_ancestor_are_recognised() {
    let (wake, _) = armed(AgentWakeDescendantPolicy::Immediate);
    assert!(wake.communication_reuses_child_from_descendant(id(2), &path("/root/a/b")));
    assert!(!wake.communication_reuses_child_from_descendant(id(2), &path("/root/b")));
    assert!(!wake.communication_reuses_child_from_descendant(id(8), &path("/root/a/b")));
}

#[test]
fn routes_follow_the_version_and_the_path() {
    let child = path("/root/a/b");
    match notice_route(ChildLookup::Loaded(Some(MultiAgentVersion::V2)), Some(&child)) {
        NoticeRoute::InterAgent { child_agent_path, parent_agent_path } => {
            assert_eq!(child_agent_path.as_str(), "/root/a/b");
            assert_eq!(parent_agent_path.as_str(), "/root/a");
        }
        _ => panic!("the parent is addressed by its path"),
    }
    assert!(matches!(
        notice_route(ChildLookup::Loaded(Some(MultiAgentVersion::V1)), Some(&child)),
        NoticeRoute::Contextual
    ));
    assert!(matches!(
        notice_route(ChildLookup::Loaded(Some(MultiAgentVersion::V2)), None),
        NoticeRoute::Contextual
    ));
    assert!(matches!(
        notice_route(ChildLookup::ManagerGone, Some(&child)),
        NoticeRoute::Unavailable
    ));
    assert!(matches!(
        notice_route(
            ChildLookup::Loaded(Some(MultiAgentVersion::V2)),
            Some(&AgentPath::root())
        ),
        NoticeRoute::Nobody
    ));
}

#[test]
fn parents_are_reloaded_where_that_can_work() {
    assert_eq!(ensure_completion_parent_loaded(true, true, false), ParentLoad::Loaded);
    assert_eq!(ensure_completion_parent_loaded(true, false, true), ParentLoad::Reload);
    assert_eq!(ensure_completion_parent_loaded(true, false, false), ParentLoad::Unavailable);
    assert_eq!(ensure_completion_parent_loaded(false, true, true), ParentLoad::Unavailable);
}

fn tell(state: Option<NoticeState>, event: NoticeEvent) -> (Option<NoticeState>, NoticeStep) {
    notify_completion_to_parent(
        state.expect("the telling goes on"),
        event,
        id(2),
        Some(&path("/root/a/b")),
        true,
    )
}

#[test]
fn notice_reaches_a_parent_that_was_unloaded() {
    let lookup = ChildLookup::Loaded(Some(MultiAgentVersion::V2));
    let (state, step) = tell(Some(NoticeState::LookingUp), NoticeEvent::Child(lookup));
    assert!(matches!(step, NoticeStep::WriteInterAgent));
    let (state, step) = tell(state, NoticeEvent::Written(Some("done".to_string())));
    assert!(matches!(step, NoticeStep::FindParent));
    let (state, step) =
        tell(state, NoticeEvent::Parent { manager_available: true, parent_loaded: false });
    assert!(matches!(step, NoticeStep::ReloadParent));
    let (state, step) = tell(state, NoticeEvent::Reloaded(true));
    match step {
        NoticeStep::SendInterAgent(communication, context) => {
            assert_eq!(communication.author.as_str(), "/root/a/b");
            assert_eq!(communication.recipient.as_str(), "/root/a");
            assert_eq!(communication.content, "done");
            assert!(communication.trigger_turn);
            assert_eq!(context.kind, AgentCommunicationKind::Result);
            assert_eq!(context.sender_thread_id, id(2));
        }
        _ => panic!("the notice is sent"),
    }
    let (state, step) = tell(state, NoticeEvent::Sent(true));
    assert!(state.is_none());
    assert!(matches!(step, NoticeStep::Record { delivered: true }));
}

#[test]
fn notice_that_cannot_be_delivered_is_recorded_as_such() {
    let (state, step) = tell(
        Some(NoticeState::LookingUp),
        NoticeEvent::Child(ChildLookup::Loaded(Some(MultiAgentVersion::V1))),
    );
    assert!(matches!(step, NoticeStep::WriteContextual));
    let (state, step) = tell(state, NoticeEvent::Written(Some("done".to_string())));
    assert!(matches!(step, NoticeStep::FindParent));
    let (state, step) =
        tell(state, NoticeEvent::Parent { manager_available: true, parent_loaded: true });
    assert!(matches!(
        step,
        NoticeStep::SendContextual { message, trigger_turn: true } if message == "done"
    ));
    let (state, step) = tell(state, NoticeEvent::Sent(false));
    assert!(state.is_none());
    assert!(matches!(step, NoticeStep::Record { delivered: false }));

    let (state, step) =
        tell(Some(NoticeState::LookingUp), NoticeEvent::Child(ChildLookup::ManagerGone));
    assert!(state.is_none() && matches!(step, NoticeStep::Record { delivered: false }));
    let (state, _) = tell(
        Some(NoticeState::LookingUp),
        NoticeEvent::Child(ChildLookup::Loaded(Some(MultiAgentVersion::V2))),
    );
    let (state, step) = tell(state, NoticeEvent::Written(None));
    assert!(state.is_none() && matches!(step, NoticeStep::Settled));
}

#[test]
fn contextual_notices_try_one_way_after_the_other() {
    let step = |tried: ContextualTried| notify_parent_with_contextual_message(tried, "m".to_string());
    assert!(matches!(
        step(ContextualTried::Nothing { parent_available: false, trigger_turn: true }),
        ContextualAction::Done(false)
    ));
    assert!(matches!(
        step(ContextualTried::Nothing { parent_available: true, trigger_turn: false }),
        ContextualAction::InjectWithoutTurn(message) if message == "m"
    ));
    assert!(matches!(
        step(ContextualTried::Nothing { parent_available: true, trigger_turn: true }),
        ContextualAction::InjectIfRunning(_)
    ));
    assert!(matches!(
        step(ContextualTried::InjectIfRunning { accepted: true }),
        ContextualAction::Done(true)
    ));
    assert!(matches!(
        step(ContextualTried::InjectIfRunning { accepted: false }),
        ContextualAction::StartTurnIfIdle(_)
    ));
    assert!(matches!(
        step(ContextualTried::StartTurnIfIdle { accepted: false }),
        ContextualAction::InjectItems(_)
    ));
    assert!(matches!(step(ContextualTried::InjectedItems), ContextualAction::Done(true)));
}

#[test]
fn activity_of_descendants_is_seen() {
    let idle = TurnActivity {
        active_turn: false,
        trigger_turn_mailbox_items: false,
        pending_input: false,
    };
    assert!(!child_has_scheduled_or_active_turn(None));
    assert!(!child_has_scheduled_or_active_turn(Some(idle)));
    assert!(child_has_scheduled_or_active_turn(Some(TurnActivity { active_turn: true, ..idle })));
    assert!(child_has_scheduled_or_active_turn(Some(TurnActivity {
        trigger_turn_mailbox_items: true,
        ..idle
    })));
    assert!(!has_active_descendants(None));
    assert!(!has_active_descendants(Some(&vec![(done(), Some(idle))])));
    assert!(has_active_descendants(Some(&vec![(done(), None), (AgentStatus::Running, None)])));
    assert!(has_active_descendants(Some(&vec![(
        done(),
        Some(TurnActivity { active_turn: true, ..idle })
    )])));
}

#[test]
fn watcher_waits_for_a_final_status() {
    let (wake, generation) = armed(AgentWakeDescendantPolicy::Immediate);
    let step = |phase: WatchPhase, event: WatchEvent| wake.watch_step(id(2), generation, phase, event);
    let phase = WatchPhase::Subscribe { mode: CompletionWatcherMode::CurrentOrNextTerminal };
    assert_eq!(phase.action(), WatchAction::Subscribe);
    let phase = step(phase, WatchEvent::Subscribed(AgentStatus::Running));
    assert_eq!(phase.action(), WatchAction::AwaitChange);
    let phase = step(phase, WatchEvent::Changed(AgentStatus::Running));
    assert_eq!(phase.action(), WatchAction::AwaitChange);
    let phase = step(phase, WatchEvent::Changed(done()));
    match phase {
        WatchPhase::Done(Some(AgentStatus::Completed(_))) => {}
        phase => assert_eq!(phase.action(), WatchAction::AskDescendants),
    }
}

#[test]
fn superseded_watchers_stop_notifying() {
    let (mut wake, generation) = armed(AgentWakeDescendantPolicy::Immediate);
    assert!(wake.keeps_notifying(id(2), generation, Some(&done())));
    assert!(!wake.keeps_notifying(id(2), generation, None));
    wake.maybe_prepare_completion_watcher_rearm(id(2), true, false, Some(&done()), None, false);
    assert!(!wake.keeps_notifying(id(2), generation, Some(&done())));
    assert_eq!((NOTICE_RETRY_MS, LEAF_ONLY_POLL_MS), (250, 25));
}

#[test]
fn accepted_submissions_update_the_task_and_the_watcher() {
    let (mut wake, _) = armed(AgentWakeDescendantPolicy::Immediate);
    let prepared = wake.prepare_input(
        id(2),
        &vec![UserInput::Text { text: "next".to_string() }],
        Some(&done()),
        None,
        false,
    );
    let effects = finish_submission(prepared, true);
    assert!(matches!(effects.task_message, TaskMessageUpdate::Replace(task) if task == "next"));
    assert!(effects.watcher.is_some());

    let communication = InterAgentCommunication::new(
        AgentPath::root(),
        path("/root/a"),
        vec![],
        String::new(),
        false,
    );
    let prepared =
        wake.prepare_inter_agent_communication(id(2), &communication, None, None, false);
    let effects = finish_submission(prepared, true);
    assert!(matches!(effects.task_message, TaskMessageUpdate::Clear));
    assert!(effects.watcher.is_none());

    let prepared = wake.prepare_input(id(2), &vec![], None, None, false);
    let effects = finish_submission(prepared, false);
    assert!(matches!(effects.task_message, TaskMessageUpdate::Keep));
    assert!(effects.watcher.is_none());
}

#[test]
fn dead_agents_are_forgotten() {
    let (mut wake, generation) = armed(AgentWakeDescendantPolicy::Immediate);
    assert!(!wake.handle_thread_request_result(id(2), &Ok("sub".to_string())));
    assert!(!wake.handle_thread_request_result(id(2), &Err(ControlError::ThreadNotFound(id(2)))));
    assert!(!wake.completion_watcher_superseded(id(2), generation));
    assert!(wake.handle_thread_request_result(id(2), &Err(ControlError::InternalAgentDied)));
    assert!(wake.completion_watcher_superseded(id(2), generation));
}

#[test]
fn children_wake_their_parents_by_default() {
    assert!(WAKE_PARENT_ON_COMPLETION_DEFAULT);
    assert_eq!(AgentWakeDescendantPolicy::default(), AgentWakeDescendantPolicy::LeafOnly);
    assert_eq!(
        AgentWaitOnWakeEnabledBehavior::default(),
        AgentWaitOnWakeEnabledBehavior::Reject
    );
}
