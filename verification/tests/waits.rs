use codex_agents::agent::{AgentMetadata, AgentStatus, ThreadId};
use codex_agents::wait_call::{begin_wait, handle_wait_event, WaitAction, WaitEvent, WaitState};
use codex_agents::wait_tool::{
    check_wake_enabled_wait, gather_statuses, wait_for_activity, wait_for_final_status,
    wait_outcome, wait_receiver_agents, wait_report, wait_timeout, wait_tool_call_status,
    AgentWaitOnWakeEnabledBehavior, CollabAgentRef, CollabAgentToolCallStatus, CollectEvent,
    FinalStatusEvent, FinalStatusStep, InputQueueActivity, StatusLook, StatusLooks,
    WaitAgentResult, WaitLimits, WaitOutcome,
};
use std::collections::HashMap;

const LIMITS: WaitLimits =
    WaitLimits { min_timeout_ms: 100, max_timeout_ms: 5000, default_timeout_ms: 700 };

fn id(bits: u128) -> ThreadId {
    ThreadId { bits }
}

fn done(text: &str) -> AgentStatus {
    AgentStatus::Completed(Some(text.to_string()))
}

#[test]
fn timeouts_stay_within_the_limits() {
    assert_eq!(wait_timeout(LIMITS, None), Ok(700));
    assert_eq!(wait_timeout(LIMITS, Some(100)), Ok(100));
    assert_eq!(wait_timeout(LIMITS, Some(5000)), Ok(5000));
    assert_eq!(
        wait_timeout(LIMITS, Some(99)),
        Err("timeout_ms must be at least 100".to_string())
    );
    assert_eq!(
        wait_timeout(LIMITS, Some(5001)),
        Err("timeout_ms must be at most 5000".to_string())
    );
    let odd = WaitLimits { min_timeout_ms: -5, max_timeout_ms: i64::MAX, default_timeout_ms: 0 };
    assert_eq!(
        wait_timeout(odd, Some(i64::MIN)),
        Err("timeout_ms must be at least -5".to_string())
    );
}

#[test]
fn wake_enabled_waits_are_refused_where_asked_for() {
    let children = vec![
        (id(1), AgentStatus::Running),
        (id(2), done("x")),
        (id(3), AgentStatus::PendingInit),
    ];
    assert_eq!(
        check_wake_enabled_wait(id(9), &children, AgentWaitOnWakeEnabledBehavior::Allow),
        Ok(())
    );
    let message = check_wake_enabled_wait(id(9), &children, AgentWaitOnWakeEnabledBehavior::Reject)
        .expect_err("two still work");
    assert_eq!(
        message,
        format!(
            "wait is disabled for wake-enabled child agents by current configuration. These child threads already have wake_parent_on_completion enabled for parent {}: {}, {}. End the current turn and rely on the automatic wake path instead, or set agents.wait_on_wake_enabled = \"allow\" / spawn the child with wake_parent_on_completion=false when you explicitly want polling.",
            uuid::Uuid::from_u128(9),
            uuid::Uuid::from_u128(1),
            uuid::Uuid::from_u128(3),
        )
    );
    let over = vec![(id(2), done("x"))];
    assert_eq!(
        check_wake_enabled_wait(id(9), &over, AgentWaitOnWakeEnabledBehavior::Reject),
        Ok(())
    );
}

#[test]
fn looks_report_the_finals_or_the_first_failure() {
    let looks = vec![
        (id(1), StatusLook::Status(AgentStatus::Running)),
        (id(2), StatusLook::ThreadNotFound),
        (id(3), StatusLook::Status(done("x"))),
    ];
    match gather_statuses(&looks) {
        StatusLooks::Finals(finals) => {
            let ids: Vec<u128> = finals.iter().map(|entry| entry.0.bits).collect();
            assert_eq!(ids, vec![2, 3]);
            assert!(matches!(finals[0].1, AgentStatus::NotFound));
        }
        StatusLooks::Failed(_) => panic!("none failed"),
    }
    let failing = vec![
        (id(3), StatusLook::Status(done("x"))),
        (id(4), StatusLook::Failed),
        (id(5), StatusLook::Failed),
    ];
    assert!(matches!(gather_statuses(&failing), StatusLooks::Failed(failed) if failed == id(4)));
}

#[test]
fn outcomes_have_texts() {
    let told = |outcome: WaitOutcome| {
        let result = WaitAgentResult::from_outcome(outcome);
        (result.message, result.timed_out)
    };
    assert_eq!(told(WaitOutcome::MailboxActivity), ("Wait completed.".to_string(), false));
    assert_eq!(
        told(WaitOutcome::Steered),
        ("Wait interrupted by new input.".to_string(), false)
    );
    assert_eq!(told(WaitOutcome::TimedOut), ("Wait timed out.".to_string(), true));
}

#[test]
fn pending_activity_comes_first() {
    let steer = Some(InputQueueActivity::Steer);
    let mailbox = Some(InputQueueActivity::Mailbox);
    assert_eq!(wait_for_activity(steer, mailbox), WaitOutcome::Steered);
    assert_eq!(wait_for_activity(None, mailbox), WaitOutcome::MailboxActivity);
    assert_eq!(wait_for_activity(None, None), WaitOutcome::TimedOut);
}

#[test]
fn single_waits_end_with_a_final_status() {
    assert!(matches!(
        wait_for_final_status(id(1), FinalStatusEvent::Status(AgentStatus::Running)),
        FinalStatusStep::AwaitChange
    ));
    assert!(matches!(
        wait_for_final_status(id(1), FinalStatusEvent::Status(done("x"))),
        FinalStatusStep::Done(Some((one, AgentStatus::Completed(_)))) if one == id(1)
    ));
    assert!(matches!(
        wait_for_final_status(id(1), FinalStatusEvent::Closed(AgentStatus::Running)),
        FinalStatusStep::Done(None)
    ));
    assert!(matches!(
        wait_for_final_status(id(1), FinalStatusEvent::Closed(AgentStatus::Shutdown)),
        FinalStatusStep::Done(Some((_, AgentStatus::Shutdown)))
    ));
}

#[test]
fn failed_agents_fail_the_call() {
    let mut statuses = HashMap::new();
    assert_eq!(wait_tool_call_status(&statuses), CollabAgentToolCallStatus::Completed);
    statuses.insert(1, done("x"));
    assert_eq!(wait_tool_call_status(&statuses), CollabAgentToolCallStatus::Completed);
    statuses.insert(2, AgentStatus::NotFound);
    assert_eq!(wait_tool_call_status(&statuses), CollabAgentToolCallStatus::Failed);
    statuses.insert(2, AgentStatus::Errored("bad".to_string()));
    assert_eq!(wait_tool_call_status(&statuses), CollabAgentToolCallStatus::Failed);
}

fn agent(bits: u128) -> CollabAgentRef {
    CollabAgentRef { thread_id: id(bits), agent_nickname: None, agent_role: None }
}

#[test]
fn reports_hold_the_agents_with_a_status() {
    let (outcome, statuses) =
        wait_outcome(&vec![(id(1), done("a")), (id(2), done("b")), (id(1), AgentStatus::Shutdown)]);
    assert_eq!(outcome, WaitOutcome::MailboxActivity);
    assert!(matches!(statuses[&1], AgentStatus::Shutdown));
    let agents = vec![agent(3), agent(2), agent(1)];
    let kept: Vec<u128> = wait_receiver_agents(&statuses, &agents)
        .iter()
        .map(|agent| agent.thread_id.bits)
        .collect();
    assert_eq!(kept, vec![2, 1]);
    let report = wait_report(statuses, &agents);
    let mut ids: Vec<u128> = report.receiver_thread_ids.iter().map(|id| id.bits).collect();
    ids.sort();
    assert_eq!(ids, vec![1, 2]);
    assert_eq!(report.agents_states.len(), 2);
    assert_eq!(wait_outcome(&vec![]).0, WaitOutcome::TimedOut);
}

fn go(state: Option<WaitState>, event: WaitEvent) -> (Option<WaitState>, WaitAction) {
    handle_wait_event(
        id(9),
        AgentWaitOnWakeEnabledBehavior::Reject,
        state.expect("the wait goes on"),
        event,
    )
}

fn targets(bits: Vec<u128>) -> Vec<(ThreadId, Option<AgentMetadata>)> {
    bits.into_iter().map(|bits| (id(bits), None)).collect()
}

#[test]
fn wait_without_targets_follows_the_input_queue() {
    let state = begin_wait(700, vec![]);
    let (state, action) = go(Some(state), WaitEvent::Shown);
    assert!(matches!(action, WaitAction::AwaitActivity { timeout_ms: 700 }));
    let (state, action) = go(
        state,
        WaitEvent::Activity { pending: None, later: Some(InputQueueActivity::Steer) },
    );
    match action {
        WaitAction::ShowEnd(report) => {
            assert_eq!(report.status, CollabAgentToolCallStatus::Completed);
            assert_eq!(report.agents_states.len(), 0);
        }
        _ => panic!("the end is shown"),
    }
    let (state, action) = go(state, WaitEvent::Shown);
    assert!(state.is_none());
    assert!(matches!(
        action,
        WaitAction::Return(result) if result.message == "Wait interrupted by new input."
    ));
}

#[test]
fn wait_collects_what_is_complete_by_the_first_completion() {
    let state = begin_wait(700, targets(vec![1, 2, 3]));
    let (state, action) = go(Some(state), WaitEvent::Shown);
    assert!(matches!(action, WaitAction::AskWakeEnabled));
    let (state, action) = go(state, WaitEvent::WakeEnabled(vec![(id(1), done("x"))]));
    assert!(matches!(action, WaitAction::LookAtTargets));
    let running = || StatusLook::Status(AgentStatus::Running);
    let (state, action) = go(
        state,
        WaitEvent::Looks(vec![(id(1), running()), (id(2), running()), (id(3), running())]),
    );
    assert!(matches!(action, WaitAction::Collect { timeout_ms: 700 }));
    let (state, action) = go(state, WaitEvent::Collected(CollectEvent::Gone));
    assert!(matches!(action, WaitAction::KeepCollecting));
    let (state, action) =
        go(state, WaitEvent::Collected(CollectEvent::Completed(id(2), done("two"))));
    assert!(matches!(action, WaitAction::TakeReady));
    let (state, action) =
        go(state, WaitEvent::Collected(CollectEvent::Completed(id(3), AgentStatus::NotFound)));
    assert!(matches!(action, WaitAction::TakeReady));
    let (state, action) = go(state, WaitEvent::Collected(CollectEvent::NoMore));
    match action {
        WaitAction::ShowEnd(report) => {
            assert_eq!(report.status, CollabAgentToolCallStatus::Failed);
            let agents: Vec<u128> =
                report.receiver_agents.iter().map(|agent| agent.thread_id.bits).collect();
            assert_eq!(agents, vec![2, 3]);
        }
        _ => panic!("the end is shown"),
    }
    let (state, action) = go(state, WaitEvent::Shown);
    assert!(state.is_none());
    assert!(matches!(action, WaitAction::Return(result) if result.message == "Wait completed."));
}

#[test]
fn wait_times_out_without_completions() {
    let state = begin_wait(700, targets(vec![1]));
    let (state, _) = go(Some(state), WaitEvent::Shown);
    let (state, _) = go(state, WaitEvent::WakeEnabled(vec![]));
    let (state, _) =
        go(state, WaitEvent::Looks(vec![(id(1), StatusLook::Status(AgentStatus::Running))]));
    let (state, _) = go(state, WaitEvent::Collected(CollectEvent::NoMore));
    let (_, action) = go(state, WaitEvent::Shown);
    assert!(matches!(action, WaitAction::Return(result) if result.timed_out));
}

#[test]
fn wait_is_refused_or_fails_with_its_target() {
    let state = begin_wait(700, targets(vec![1, 2]));
    let (state, _) = go(Some(state), WaitEvent::Shown);
    let (state, action) = go(state, WaitEvent::WakeEnabled(vec![(id(1), AgentStatus::Running)]));
    assert!(state.is_none());
    assert!(matches!(action, WaitAction::Reject(_)));

    let state = begin_wait(700, targets(vec![1, 2]));
    let (state, _) = go(Some(state), WaitEvent::Shown);
    let (state, _) = go(state, WaitEvent::WakeEnabled(vec![]));
    let (state, action) = go(
        state,
        WaitEvent::Looks(vec![
            (id(1), StatusLook::Status(done("x"))),
            (id(2), StatusLook::Failed),
        ]),
    );
    assert!(matches!(action, WaitAction::AskStatus(failed) if failed == id(2)));
    let (state, action) = go(state, WaitEvent::Status(AgentStatus::Running));
    assert!(matches!(
        action,
        WaitAction::ShowEnd(report) if report.receiver_thread_ids == vec![id(2)]
    ));
    let (state, action) = go(state, WaitEvent::Shown);
    assert!(state.is_none());
    assert!(matches!(action, WaitAction::FailTarget(failed) if failed == id(2)));
}

#[test]
fn finished_targets_are_reported_at_once() {
    let metadata = AgentMetadata {
        agent_nickname: Some("Nick".to_string()),
        agent_role: Some("worker".to_string()),
        ..AgentMetadata::default()
    };
    let state = begin_wait(700, vec![(id(1), Some(metadata)), (id(2), None)]);
    let (state, _) = go(Some(state), WaitEvent::Shown);
    let (state, _) = go(state, WaitEvent::WakeEnabled(vec![]));
    let (state, action) = go(
        state,
        WaitEvent::Looks(vec![
            (id(1), StatusLook::Status(done("x"))),
            (id(2), StatusLook::Status(AgentStatus::Running)),
        ]),
    );
    match action {
        WaitAction::ShowEnd(report) => {
            assert_eq!(report.receiver_agents.len(), 1);
            assert_eq!(report.receiver_agents[0].agent_nickname.as_deref(), Some("Nick"));
        }
        _ => panic!("the end is shown"),
    }
    let (state, action) = go(state, WaitEvent::Looks(vec![]));
    assert!(state.is_none() && matches!(action, WaitAction::Stop));
}
