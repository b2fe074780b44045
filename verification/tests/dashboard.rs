use codex_agents::clock::{format_timestamp, shown_time, FIRST_SECOND, LAST_SECOND};
use codex_agents::dashboard::app::{DashboardApp, DashboardEvent, ServerNotification};
use codex_agents::dashboard::cli::{Cli, DashboardLoop, LoopAction, LoopEvent, ParentChoice};
use codex_agents::dashboard::client::{
    load_root_threads, read_thread_failure, relay_action, AppServerEvent, RelayAction, RequestIds,
    ThreadListing,
};
use codex_agents::dashboard::model::{
    short_thread_id, thread_label, thread_project_name, DashboardAgentEntry, DashboardPreview,
    PreviewSource, Thread, ThreadItem, ThreadStatus, Turn,
};
use codex_agents::dashboard::picker::{
    picker_footer, picker_header, render as render_picker, render_choice, Key, PickerOutcome,
    SessionPickerState, PICKER_ABORTED,
};
use codex_agents::dashboard::preview::{committed_preview, normalize_preview, turn_preview};
use codex_agents::dashboard::render::{
    empty_state, footer, header, layout_agents, parent_panel_height, parent_preview_line_count,
    preview_line_count, render, render_agent, render_parent, split_body, status_pill, AgentsArea,
    BodySplit,
};
use codex_agents::path_style::PathStyle;
use codex_agents::paths::PathText;
use codex_agents::styled::{StyledLine, TextColor};

fn path(text: &str) -> PathText {
    PathText { style: PathStyle::Slash, text: text.to_string() }
}

fn thread(id: &str, parent_thread_id: Option<&str>, status: ThreadStatus) -> Thread {
    Thread {
        id: id.to_string(),
        preview: format!("{id} preview"),
        updated_at: 1,
        status,
        cwd: path("/tmp"),
        parent_thread_id: parent_thread_id.map(str::to_string),
        agent_nickname: Some(format!("{id}-nick")),
        agent_role: Some("explorer".to_string()),
        name: Some(format!("{id}-name")),
        turns: Vec::new(),
    }
}

fn picked(id: &str, updated_at: i64, parent_thread_id: Option<&str>) -> Thread {
    Thread {
        id: id.to_string(),
        preview: format!("{id} preview"),
        updated_at,
        status: ThreadStatus::Idle,
        cwd: path(&format!("/tmp/{id}")),
        parent_thread_id: parent_thread_id.map(str::to_string),
        agent_nickname: None,
        agent_role: None,
        name: Some(format!("{id}-name")),
        turns: Vec::new(),
    }
}

fn thread_with_items(items: Vec<ThreadItem>) -> Thread {
    Thread {
        id: "child".to_string(),
        preview: "fallback preview".to_string(),
        updated_at: 0,
        status: ThreadStatus::Idle,
        cwd: path("/tmp"),
        parent_thread_id: Some("parent".to_string()),
        agent_nickname: Some("Scout".to_string()),
        agent_role: Some("explorer".to_string()),
        name: None,
        turns: vec![Turn { items }],
    }
}

fn parts(preview: &DashboardPreview) -> (&str, PreviewSource, bool) {
    (preview.text.as_str(), preview.source, preview.live)
}

fn plain(line: &StyledLine) -> String {
    line.iter().map(|part| part.text.as_str()).collect()
}

#[test]
fn apply_live_delta_updates_parent_preview() {
    let mut app = DashboardApp::new("parent".to_string());
    app.apply_refresh(&vec![thread("parent", None, ThreadStatus::Active)]);

    app.apply_live_delta("parent", "live update", PreviewSource::Plan);

    let snapshot = app.snapshot();
    let parent = snapshot.parent.expect("parent should be present");
    assert_eq!(parts(&parent.preview), ("live update", PreviewSource::Plan, true));
}

#[test]
fn apply_refresh_preserves_live_parent_preview_while_parent_is_active() {
    let mut app = DashboardApp::new("parent".to_string());
    app.apply_refresh(&vec![thread("parent", None, ThreadStatus::Active)]);
    app.apply_live_delta("parent", "live update", PreviewSource::Plan);

    app.apply_refresh(&vec![thread("parent", None, ThreadStatus::Active)]);

    let snapshot = app.snapshot();
    let parent = snapshot.parent.expect("parent should be present");
    assert_eq!(parent.preview.text, "live update");
    assert_eq!(parent.preview.source, PreviewSource::Plan);
    assert!(parent.preview.live);
}

#[test]
fn thread_label_uses_cwd_basename_when_name_is_missing() {
    let thread = Thread {
        id: "thread-id".to_string(),
        preview: "preview text".to_string(),
        updated_at: 0,
        status: ThreadStatus::Idle,
        cwd: path("/tmp/polytick"),
        parent_thread_id: None,
        agent_nickname: None,
        agent_role: None,
        name: None,
        turns: Vec::new(),
    };

    assert_eq!(thread_label(&thread), "polytick");
}

#[test]
fn picker_filters_to_root_threads_and_sorts_by_updated_at() {
    let state = SessionPickerState::from_threads(&vec![
        picked("older-root", 1, None),
        picked("child", 99, Some("parent")),
        picked("newer-root", 5, None),
    ])
    .expect("picker state");

    assert_eq!(state.len(), 2);
    assert_eq!(state.choices[0].thread_id, "newer-root");
    assert_eq!(state.choices[1].thread_id, "older-root");
}

#[test]
fn picker_selection_stays_in_bounds() {
    let mut state = SessionPickerState::from_threads(&vec![
        picked("root-a", 1, None),
        picked("root-b", 2, None),
    ])
    .expect("picker state");

    state.move_up();
    assert_eq!(state.selected, 0);
    state.move_down();
    state.move_down();
    assert_eq!(state.selected, 1);
}

#[test]
fn picker_uses_cwd_basename_as_project_name() {
    let state =
        SessionPickerState::from_threads(&vec![picked("root-a", 1, None)]).expect("picker state");

    assert_eq!(state.choices[0].project_name, "root-a");
}

#[test]
fn committed_preview_prefers_agent_message() {
    let thread = thread_with_items(vec![
        ThreadItem::Plan { text: "draft plan".to_string() },
        ThreadItem::AgentMessage { text: "final answer".to_string() },
    ]);

    assert_eq!(
        parts(&committed_preview(&thread)),
        ("final answer", PreviewSource::AgentMessage, false)
    );
}

#[test]
fn committed_preview_falls_back_to_thread_preview() {
    let thread = thread_with_items(vec![]);

    assert_eq!(
        parts(&committed_preview(&thread)),
        ("fallback preview", PreviewSource::ThreadPreview, false)
    );
}

#[test]
fn preview_line_count_prefers_spacious_layout_when_room_allows() {
    assert_eq!(preview_line_count(18, 3), 3);
}

#[test]
fn preview_line_count_compacts_when_space_is_tight() {
    assert_eq!(preview_line_count(8, 3), 1);
}

#[test]
fn parent_preview_line_count_prefers_three_lines_when_room_allows() {
    assert_eq!(parent_preview_line_count(12), 3);
}

#[test]
fn parent_preview_line_count_compacts_for_short_body() {
    assert_eq!(parent_preview_line_count(7), 1);
}

#[test]
fn previews_show_the_last_item_that_says_something() {
    let turn = Turn {
        items: vec![
            ThreadItem::AgentMessage { text: "first".to_string() },
            ThreadItem::AgentMessage { text: "  second \n line ".to_string() },
            ThreadItem::Reasoning {
                summary: vec!["sum".to_string()],
                content: vec!["raw".to_string()],
            },
            ThreadItem::Other,
        ],
    };
    let preview = turn_preview(&turn).expect("preview");
    assert_eq!(parts(&preview), ("sum", PreviewSource::ReasoningSummary, false));
    let spoken = Turn { items: turn.items.into_iter().take(2).collect() };
    let preview = turn_preview(&spoken).expect("preview");
    assert_eq!(parts(&preview), ("second line", PreviewSource::AgentMessage, false));
    let raw = Turn {
        items: vec![ThreadItem::Reasoning {
            summary: vec![" ".to_string()],
            content: vec!["raw".to_string(), "text".to_string()],
        }],
    };
    let preview = turn_preview(&raw).expect("preview");
    assert_eq!(parts(&preview), ("raw text", PreviewSource::ReasoningText, false));
    let quiet = Turn { items: vec![ThreadItem::AgentMessage { text: " ".to_string() }] };
    assert!(turn_preview(&quiet).is_none());
    assert_eq!(normalize_preview(" a\t b\n\nc "), "a b c");
}

#[test]
fn labels_fall_back_to_the_short_identity() {
    let mut unnamed = picked("0123456789", 1, None);
    unnamed.name = Some("  ".to_string());
    unnamed.cwd = path("/");
    assert_eq!(thread_project_name(&unnamed), None);
    assert_eq!(thread_label(&unnamed), "0123456789 preview");
    unnamed.preview = " ".to_string();
    assert_eq!(thread_label(&unnamed), "thread 01234567");
    assert_eq!(short_thread_id("abc"), "abc");
    let named = picked("x", 1, None);
    assert_eq!(thread_label(&named), "x-name");
}

#[test]
fn agents_are_ranked_by_status_time_and_identity() {
    let mut app = DashboardApp::new("p".to_string());
    let mut late = thread("late", Some("p"), ThreadStatus::Idle);
    late.updated_at = 9;
    let agents = vec![
        thread("p", None, ThreadStatus::Idle),
        thread("b", Some("p"), ThreadStatus::Idle),
        thread("busy", Some("p"), ThreadStatus::Active),
        late,
        thread("a", Some("p"), ThreadStatus::Idle),
        thread("stranger", Some("q"), ThreadStatus::Active),
    ];
    app.refresh(Ok(agents));
    let ids: Vec<String> = app.snapshot().agents.into_iter().map(|agent| agent.thread_id).collect();
    assert_eq!(ids, vec!["busy", "late", "a", "b"]);
    assert_eq!(app.snapshot().parent_label, "p-name");
    app.refresh(Err("no answer".to_string()));
    let snapshot = app.snapshot();
    assert_eq!(snapshot.refresh_error.as_deref(), Some("no answer"));
    assert_eq!(snapshot.agents.len(), 4);
}

#[test]
fn deltas_of_a_lesser_source_are_dropped() {
    let mut app = DashboardApp::new("p".to_string());
    app.apply_refresh(&vec![
        thread("p", None, ThreadStatus::Active),
        thread("a", Some("p"), ThreadStatus::Active),
    ]);
    app.apply_live_delta_at("a", "thinking", PreviewSource::ReasoningText, 5);
    app.apply_live_delta_at("a", " hard", PreviewSource::ReasoningText, 6);
    assert_eq!(
        parts(&app.snapshot().agents[0].preview),
        ("thinking hard", PreviewSource::ReasoningText, true)
    );
    app.apply_live_delta_at("a", "answer", PreviewSource::AgentMessage, 7);
    app.apply_live_delta_at("a", "late thought", PreviewSource::ReasoningText, 8);
    let snapshot = app.snapshot();
    assert_eq!(
        parts(&snapshot.agents[0].preview),
        ("answer", PreviewSource::AgentMessage, true)
    );
    let before = snapshot.agents[0].updated_at;
    app.apply_live_delta_at("nobody", "x", PreviewSource::Plan, 99);
    assert_eq!(app.snapshot().agents[0].updated_at, before);
}

#[test]
fn notifications_follow_the_children() {
    let mut app = DashboardApp::new("p".to_string());
    app.apply_refresh(&vec![thread("p", None, ThreadStatus::Active)]);
    assert!(!app.handle_notification(ServerNotification::ThreadStarted {
        thread: thread("kid", Some("p"), ThreadStatus::Active),
    }));
    assert_eq!(app.snapshot().agents.len(), 1);
    app.handle_notification(ServerNotification::ThreadStarted {
        thread: thread("other", Some("q"), ThreadStatus::Active),
    });
    assert_eq!(app.snapshot().agents.len(), 1);
    assert!(app.handle_notification(ServerNotification::ThreadStatusChanged {
        thread_id: "kid".to_string(),
        status: ThreadStatus::SystemError,
    }));
    assert_eq!(app.snapshot().agents[0].status, ThreadStatus::SystemError);
    app.handle_event(DashboardEvent::Notification(ServerNotification::AgentMessageDelta {
        thread_id: "kid".to_string(),
        delta: "hello".to_string(),
    }));
    assert_eq!(
        parts(&app.snapshot().agents[0].preview),
        ("hello", PreviewSource::AgentMessage, true)
    );
    app.handle_notification(ServerNotification::ThreadClosed { thread_id: "kid".to_string() });
    assert_eq!(app.snapshot().agents.len(), 0);
    app.handle_notification(ServerNotification::ThreadClosed { thread_id: "p".to_string() });
    let snapshot = app.snapshot();
    assert!(snapshot.parent.is_none());
    assert_eq!(snapshot.refresh_error.as_deref(), Some("parent thread p was closed"));
}

#[test]
fn lag_asks_for_a_refresh_and_loss_is_shown() {
    let mut app = DashboardApp::new("p".to_string());
    assert!(app.handle_event(DashboardEvent::Lagged(3)));
    let lag = "dashboard skipped 3 app-server notifications; refreshing";
    assert_eq!(app.snapshot().refresh_error.as_deref(), Some(lag));
    assert!(!app.handle_event(DashboardEvent::Disconnected("gone".to_string())));
    assert_eq!(app.snapshot().refresh_error.as_deref(), Some(lag));
    app.disconnect("gone".to_string());
    assert!(app.snapshot().refresh_error.expect("error").contains("gone"));
}

#[test]
fn body_is_split_between_parent_and_agents() {
    assert_eq!(split_body(20, false), BodySplit { parent: None, agents: Some(20) });
    assert_eq!(split_body(20, true), BodySplit { parent: Some(5), agents: Some(15) });
    assert_eq!(split_body(8, true), BodySplit { parent: Some(4), agents: Some(4) });
    assert_eq!(split_body(3, true), BodySplit { parent: Some(3), agents: None });
    assert_eq!(parent_panel_height(12), 5);
}

#[test]
fn agents_are_shown_or_counted_as_hidden() {
    let roomy = layout_agents(15, 3);
    assert_eq!((roomy.preview_lines, roomy.entry_height), (3, 5));
    assert_eq!((roomy.shown_agents, roomy.hidden_agents), (3, 0));
    let tight = layout_agents(7, 5);
    assert_eq!((tight.preview_lines, tight.entry_height), (1, 3));
    assert_eq!((tight.shown_agents, tight.hidden_agents), (2, 3));
    let tiny = layout_agents(1, 4);
    assert_eq!((tiny.shown_agents, tiny.hidden_agents), (1, 3));
}

#[test]
fn lines_say_what_they_should() {
    assert_eq!(footer(0), "q quit · r refresh");
    assert_eq!(footer(2), "q quit · r refresh · 2 more agents hidden by terminal height");
    assert_eq!(plain(&picker_header(3)), "Select parent session · 3 loaded roots");
    assert_eq!(picker_footer(0, 0), "↑/↓ or j/k move · enter select · q quit");
    assert_eq!(
        picker_footer(1, 12),
        "↑/↓ or j/k move · enter select · q quit · hidden: 1 above, 12 below"
    );
    let mut app = DashboardApp::new("p".to_string());
    let snapshot = app.snapshot();
    assert_eq!(plain(&header(&snapshot)), "Agent dashboard · loading… · parent p · 0 open agents");
    let empty = empty_state(&snapshot);
    assert_eq!(plain(&empty[0]), "No open child-agent threads for loading….");
    assert_eq!(empty.len(), 3);
    app.disconnect("gone".to_string());
    assert_eq!(empty_state(&app.snapshot()).len(), 5);
    assert_eq!(status_pill(ThreadStatus::Active), ("active", TextColor::LightGreen));
    assert_eq!(status_pill(ThreadStatus::NotLoaded), ("notLoaded", TextColor::DarkGray));
}

#[test]
fn panels_wrap_the_preview() {
    let agent = DashboardAgentEntry::from_thread(
        &thread("a", Some("p"), ThreadStatus::Active),
        DashboardPreview {
            text: "one two three four".to_string(),
            source: PreviewSource::Plan,
            live: true,
        },
    );
    let panel = render_agent(&agent, 13, 2);
    assert!(plain(&panel.title).starts_with("a-nick"));
    assert_eq!(plain(&panel.lines[0]), "[plan] live");
    assert_eq!(plain(&panel.lines[1]), "one two");
    assert_eq!(plain(&panel.lines[2]), "three");
    assert_eq!(panel.lines.len(), 3);
    for width in [0_u16, 1, 4, 5] {
        assert_eq!(render_agent(&agent, width, 2).lines.len(), 3, "{width}");
    }
}

#[test]
fn whole_screen_holds_parent_agents_and_footer() {
    let mut app = DashboardApp::new("p".to_string());
    app.apply_refresh(&vec![
        thread("p", None, ThreadStatus::Active),
        thread("a", Some("p"), ThreadStatus::Idle),
        thread("b", Some("p"), ThreadStatus::Idle),
    ]);
    let screen = render(&app.snapshot(), 40, 9);
    let (rows, parent) = screen.parent.expect("parent panel");
    assert_eq!(rows, 4);
    assert!(plain(&parent.title).starts_with("Parent: p-name · active · "));
    match screen.agents {
        AgentsArea::Panels { height, entry_height, panels } => {
            assert_eq!((height, entry_height, panels.len()), (5, 3, 1));
            assert!(plain(&panels[0].title).starts_with("a-nick"));
        }
        _ => panic!("agents should be shown"),
    }
    assert_eq!(screen.footer, "q quit · r refresh · 1 more agents hidden by terminal height");

    let squeezed = render(&app.snapshot(), 40, 3);
    assert!(matches!(squeezed.agents, AgentsArea::Hidden));
    assert_eq!(
        squeezed.footer,
        "q quit · r refresh · 2 more agents hidden by terminal height"
    );

    let empty = render(&DashboardApp::new("p".to_string()).snapshot(), 40, 9);
    assert!(empty.parent.is_none());
    assert!(matches!(empty.agents, AgentsArea::Empty { height: 9, .. }));
    assert_eq!(empty.footer, "q quit · r refresh");
}

#[test]
fn parent_panel_shows_lines_for_its_own_height() {
    let mut app = DashboardApp::new("p".to_string());
    let mut parent = thread("p", None, ThreadStatus::Idle);
    parent.preview = "one two three four".to_string();
    app.apply_refresh(&vec![parent]);
    let entry = app.snapshot().parent.expect("parent");
    let panel = render_parent(&entry, 9, 5);
    assert_eq!(panel.lines.len(), 2);
    assert_eq!(plain(&panel.lines[0]), "[preview] committed");
    let tall = render_parent(&entry, 9, 12);
    assert_eq!(tall.lines.len(), 4);
}

#[test]
fn picker_screen_marks_the_selected_choice() {
    let threads: Vec<Thread> = (0..4).map(|n: i64| picked(&format!("r{n}"), n, None)).collect();
    let mut state = SessionPickerState::from_threads(&threads).expect("picker state");
    state.move_down();
    state.move_down();
    let screen = render_picker(&state, 40, 11);
    assert_eq!(plain(&screen.header), "Select parent session · 4 loaded roots");
    let marks: Vec<bool> = screen.choices.iter().map(|choice| choice.0).collect();
    assert_eq!(marks, vec![false, true]);
    assert!(plain(&screen.choices[1].1[0]).starts_with("› r1 · r1-name · r1 · idle · "));
    assert!(screen.footer.ends_with("hidden: 1 above, 1 below"));
    let lines = render_choice(&state.choices[0], false, 40);
    assert_eq!(plain(&lines[1]), "  cwd: /tmp/r3");
    assert_eq!(plain(&lines[2]), "  preview: r3 preview");
}

#[test]
fn picker_answers_keys() {
    let mut state = SessionPickerState::from_threads(&vec![
        picked("root-a", 1, None),
        picked("root-b", 2, None),
    ])
    .expect("picker state");
    assert_eq!(state.selected_thread_id(), "root-b");
    assert!(matches!(state.press(Key::Char('j')), PickerOutcome::Continue));
    assert!(matches!(state.press(Key::Other), PickerOutcome::Continue));
    match state.press(Key::Enter) {
        PickerOutcome::Selected(id) => assert_eq!(id, "root-a"),
        _ => panic!("enter selects"),
    }
    state.press(Key::Char('k'));
    assert_eq!(state.selected, 0);
    assert!(matches!(state.press(Key::Esc), PickerOutcome::Aborted));
    assert!(matches!(state.press(Key::Char('q')), PickerOutcome::Aborted));
    assert_eq!(PICKER_ABORTED, "session picker aborted");
}

#[test]
fn picker_needs_a_root_thread() {
    assert!(SessionPickerState::from_threads(&vec![picked("child", 1, Some("p"))]).is_err());
}

#[test]
fn times_are_shown_as_local_clock_or_unknown() {
    for seconds in [0_i64, 1_700_000_000, FIRST_SECOND, LAST_SECOND] {
        let text = format_timestamp(seconds);
        assert_eq!(text.len(), 8, "{text}");
        assert_eq!(text.matches(':').count(), 2, "{text}");
    }
    assert_eq!(format_timestamp(FIRST_SECOND - 1), "unknown");
    assert_eq!(format_timestamp(LAST_SECOND + 1), "unknown");
    assert_eq!(format_timestamp(i64::MAX), "unknown");
    assert_eq!(shown_time(Some("x".to_string())), "x");
    assert_eq!(shown_time(None), "unknown");
    assert_eq!(chrono::DateTime::<chrono::Utc>::MIN_UTC.timestamp(), FIRST_SECOND);
    assert_eq!(chrono::DateTime::<chrono::Utc>::MAX_UTC.timestamp(), LAST_SECOND);
}

#[test]
fn command_line_defaults_and_bounds() {
    let cli = Cli::default();
    assert_eq!(cli.websocket_url, "ws://127.0.0.1:4222");
    assert_eq!(cli.refresh_ms, 1000);
    assert_eq!(cli.refresh_interval_ms(), 1000);
    assert_eq!(Cli { refresh_ms: 1, ..Cli::default() }.refresh_interval_ms(), 250);
    let roots = vec![picked("only", 1, None)];
    let named = Cli { parent_thread_id: Some("given".to_string()), ..Cli::default() };
    assert!(matches!(named.choose_parent(&roots), ParentChoice::Known(id) if id == "given"));
    assert!(matches!(cli.choose_parent(&roots), ParentChoice::Known(id) if id == "only"));
    let pick = Cli { pick: true, ..Cli::default() };
    assert!(matches!(pick.choose_parent(&roots), ParentChoice::Ask));
    let two = vec![picked("newer", 2, None), picked("older", 1, None)];
    assert!(matches!(cli.choose_parent(&two), ParentChoice::Known(id) if id == "newer"));
    assert!(matches!(pick.choose_parent(&two), ParentChoice::Ask));
    assert!(matches!(cli.choose_parent(&vec![]), ParentChoice::Ask));
    let given_and_pick =
        Cli { pick: true, parent_thread_id: Some("given".to_string()), ..Cli::default() };
    assert!(matches!(
        given_and_pick.choose_parent(&two),
        ParentChoice::Known(id) if id == "given"
    ));
}

#[test]
fn loop_quits_refreshes_and_remembers_a_lost_connection() {
    let mut state = DashboardLoop::new(DashboardApp::new("p".to_string()));
    assert!(state.connection_open);
    assert_eq!(state.step(LoopEvent::Tick), LoopAction::Refresh);
    assert_eq!(state.step(LoopEvent::Key(Key::Char('r'))), LoopAction::Refresh);
    assert_eq!(state.step(LoopEvent::OtherInput), LoopAction::Continue);
    state.step(LoopEvent::Server(None));
    assert!(!state.connection_open);
    assert!(state.app.snapshot().refresh_error.is_some());
    assert_eq!(state.step(LoopEvent::Tick), LoopAction::Continue);
    assert_eq!(state.step(LoopEvent::Key(Key::Char('q'))), LoopAction::Quit);
    assert_eq!(state.step(LoopEvent::Interrupted), LoopAction::Quit);
}

#[test]
fn relay_rejects_requests_and_forwards_the_rest() {
    match relay_action(Some(AppServerEvent::ServerRequest { request_id: "7".to_string() })) {
        RelayAction::Reject { request_id, code, .. } => {
            assert_eq!(request_id, "7");
            assert_eq!(code, -32001);
        }
        _ => panic!("requests are rejected"),
    }
    assert!(matches!(
        relay_action(Some(AppServerEvent::Lagged { skipped: 2 })),
        RelayAction::Send(DashboardEvent::Lagged(2))
    ));
    assert!(matches!(
        relay_action(Some(AppServerEvent::LegacyNotification)),
        RelayAction::Ignore
    ));
    assert!(matches!(
        relay_action(None),
        RelayAction::SendThenShutDown(DashboardEvent::Disconnected(_))
            | RelayAction::SendThenStop(DashboardEvent::Disconnected(_))
    ));
}

#[test]
fn request_ids_count_up() {
    let mut ids = RequestIds::new();
    let first = ids.next_request_id();
    assert_eq!(ids.next_request_id(), first + 1);
}

#[test]
fn listing_collects_pages_until_there_is_no_cursor() {
    let mut listing = ThreadListing::new();
    assert!(listing.take_page(vec!["a".to_string()], Some("next".to_string())));
    assert_eq!(listing.cursor.as_deref(), Some("next"));
    assert!(!listing.take_page(vec!["b".to_string()], None));
    assert_eq!(listing.ids, vec!["a", "b"]);
    assert!(read_thread_failure("t1").contains("t1"));
}

#[test]
fn root_threads_are_the_newest_first() {
    let roots = load_root_threads(vec![
        picked("old", 1, None),
        picked("child", 9, Some("old")),
        picked("new", 5, None),
    ])
    .expect("roots");
    let ids: Vec<String> = roots.into_iter().map(|thread| thread.id).collect();
    assert_eq!(ids, vec!["new", "old"]);
    assert!(load_root_threads(vec![picked("child", 9, Some("old"))]).is_err());
}
