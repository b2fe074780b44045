use codex_agents::agent::ThreadId;
use codex_agents::hooks::after_compaction::{
    after_compaction_outcome, command_input, matched_handlers, parse_completed, preview,
    preview_at, serialization_failure_outcome, trimmed_non_empty, AfterCompactionHandlerData,
    AfterCompactionOutput, AfterCompactionRequest, AfterCompactionSource,
};
use codex_agents::hooks::discovery::{
    append_group_handlers, append_matcher_groups, discover_handlers, invalid_matcher_warning,
    AppendGroupSpec, HookLayer, HooksFileRead,
};
use codex_agents::hooks::dispatcher::{
    completed_summary, order_completed, running_summary, running_summary_at, runs_given,
    scope_for_event, select_handlers, select_handlers_for_matcher_inputs, CommandRunResult,
    CompletedRun, HookCompletedEvent, HookOutputEntry, HookOutputEntryKind, HookRunStatus,
    HookScope, HookSelectionContext, ParsedHandler,
};
use codex_agents::hooks::matcher::{
    admits_given, is_match_all, matcher_pattern_for_event, matches_matcher,
    validate_matcher_pattern,
};
use codex_agents::hooks::model::{
    hook_source_for_config_layer_source, ConfigLayerSource, ConfiguredHandler, HookConditions,
    HookEventName, HookEvents, HookHandlerConfig, HookSource, MatcherGroup,
};

fn source_path() -> String {
    "/tmp/hooks.json".to_string()
}

fn command(text: &str) -> HookHandlerConfig {
    HookHandlerConfig::Command {
        command: text.to_string(),
        timeout_sec: None,
        is_async: false,
        status_message: None,
    }
}

fn command_group(matcher: Option<&str>) -> MatcherGroup {
    MatcherGroup {
        matcher: matcher.map(str::to_string),
        conditions: HookConditions::default(),
        hooks: vec![command("echo hello")],
    }
}

fn discovered(event_name: HookEventName, matcher: Option<&str>) -> ConfiguredHandler {
    ConfiguredHandler {
        event_name,
        matcher: matcher.map(str::to_string),
        conditions: HookConditions::default(),
        command: "echo hello".to_string(),
        timeout_sec: 600,
        status_message: None,
        source_path: source_path(),
        source: HookSource::User,
        display_order: 0,
    }
}

fn shown<T: std::fmt::Debug>(value: &T) -> String {
    format!("{value:?}")
}

fn append(event_name: HookEventName, groups: Vec<MatcherGroup>) -> (Vec<ConfiguredHandler>, Vec<String>, i64) {
    let mut handlers = Vec::new();
    let mut warnings = Vec::new();
    let mut display_order: i64 = 0;
    append_matcher_groups(
        &mut handlers,
        &mut warnings,
        &mut display_order,
        &source_path(),
        HookSource::User,
        event_name,
        &groups,
    );
    (handlers, warnings, display_order)
}

#[test]
fn user_prompt_submit_ignores_invalid_matcher_during_discovery() {
    let (handlers, warnings, _) =
        append(HookEventName::UserPromptSubmit, vec![command_group(Some("["))]);

    assert_eq!(warnings, Vec::<String>::new());
    assert_eq!(
        shown(&handlers),
        shown(&vec![discovered(HookEventName::UserPromptSubmit, None)])
    );
}

#[test]
fn pre_tool_use_keeps_valid_matcher_during_discovery() {
    let (handlers, warnings, _) =
        append(HookEventName::PreToolUse, vec![command_group(Some("^Bash$"))]);

    assert_eq!(warnings, Vec::<String>::new());
    assert_eq!(
        shown(&handlers),
        shown(&vec![discovered(HookEventName::PreToolUse, Some("^Bash$"))])
    );
}

#[test]
fn pre_tool_use_treats_star_matcher_as_match_all() {
    let (handlers, warnings, _) =
        append(HookEventName::PreToolUse, vec![command_group(Some("*"))]);

    assert_eq!(warnings, Vec::<String>::new());
    assert_eq!(handlers.len(), 1);
    assert_eq!(handlers[0].matcher.as_deref(), Some("*"));
}

#[test]
fn append_group_handlers_preserves_conditions() {
    let mut handlers = Vec::new();
    let mut warnings = Vec::new();
    let mut display_order: i64 = 0;
    let conditions = HookConditions {
        profile: Some("review".to_string()),
        profiles: vec!["worker-profile".to_string()],
        model: Some("gpt-5.4".to_string()),
        models: vec!["gpt-5.4-mini".to_string()],
        permission_mode: Some("default".to_string()),
        permission_modes: vec!["bypassPermissions".to_string()],
    };

    append_group_handlers(
        &mut handlers,
        &mut warnings,
        &mut display_order,
        AppendGroupSpec {
            source_path: &source_path(),
            source: HookSource::User,
            event_name: HookEventName::SessionStart,
            matcher: Some("^startup$"),
            conditions: conditions.clone(),
        },
        &vec![command("echo hello")],
    );

    assert_eq!(warnings, Vec::<String>::new());
    assert_eq!(
        shown(&handlers),
        shown(&vec![ConfiguredHandler {
            event_name: HookEventName::SessionStart,
            matcher: Some("^startup$".to_string()),
            conditions,
            command: "echo hello".to_string(),
            timeout_sec: 600,
            status_message: None,
            source_path: source_path(),
            source: HookSource::User,
            display_order: 0,
        }])
    );
}

#[test]
fn hook_source_for_config_layer_source_discards_source_details() {
    let config_file = "/tmp/.codex/config.toml".to_string();
    let dot_codex_folder = "/tmp/worktree/.codex".to_string();

    assert_eq!(
        hook_source_for_config_layer_source(&ConfigLayerSource::System {
            file: config_file.clone(),
        }),
        HookSource::System,
    );
    assert_eq!(
        hook_source_for_config_layer_source(&ConfigLayerSource::User {
            file: config_file.clone(),
        }),
        HookSource::User,
    );
    assert_eq!(
        hook_source_for_config_layer_source(&ConfigLayerSource::Project { dot_codex_folder }),
        HookSource::Project,
    );
    assert_eq!(
        hook_source_for_config_layer_source(&ConfigLayerSource::Mdm {
            domain: "com.openai.codex".to_string(),
            key: "config".to_string(),
        }),
        HookSource::Mdm,
    );
    assert_eq!(
        hook_source_for_config_layer_source(&ConfigLayerSource::SessionFlags),
        HookSource::SessionFlags,
    );
    assert_eq!(
        hook_source_for_config_layer_source(
            &ConfigLayerSource::LegacyManagedConfigTomlFromFile { file: config_file },
        ),
        HookSource::LegacyManagedConfigFile,
    );
    assert_eq!(
        hook_source_for_config_layer_source(&ConfigLayerSource::LegacyManagedConfigTomlFromMdm),
        HookSource::LegacyManagedConfigMdm,
    );
}

#[test]
fn invalid_matcher_is_skipped_with_a_warning() {
    let (handlers, warnings, order) =
        append(HookEventName::PreToolUse, vec![command_group(Some("["))]);
    assert_eq!(handlers.len(), 0);
    assert_eq!(order, 0);
    let error = match validate_matcher_pattern("[") {
        Err(error) => error,
        Ok(()) => panic!("an open class is no pattern"),
    };
    assert_eq!(
        warnings,
        vec![format!("invalid matcher \"[\" in /tmp/hooks.json: {error}")]
    );
    assert_eq!(
        invalid_matcher_warning("a\"b", "/p", "why"),
        "invalid matcher \"a\\\"b\" in /p: why"
    );
}

#[test]
fn unsupported_handlers_are_skipped_with_warnings() {
    let groups = vec![MatcherGroup {
        matcher: None,
        conditions: HookConditions::default(),
        hooks: vec![
            HookHandlerConfig::Prompt,
            HookHandlerConfig::Agent,
            HookHandlerConfig::Command {
                command: "  ".to_string(),
                timeout_sec: None,
                is_async: false,
                status_message: None,
            },
            HookHandlerConfig::Command {
                command: "later".to_string(),
                timeout_sec: Some(3),
                is_async: true,
                status_message: None,
            },
            HookHandlerConfig::Command {
                command: "now".to_string(),
                timeout_sec: Some(0),
                is_async: false,
                status_message: Some("working".to_string()),
            },
        ],
    }];
    let (handlers, warnings, order) = append(HookEventName::Stop, groups);
    assert_eq!(handlers.len(), 1);
    assert_eq!(handlers[0].command, "now");
    assert_eq!(handlers[0].timeout_sec, 1);
    assert_eq!(handlers[0].status_message.as_deref(), Some("working"));
    assert_eq!(order, 1);
    assert_eq!(
        warnings,
        vec![
            "skipping prompt hook in /tmp/hooks.json: prompt hooks are not supported yet",
            "skipping agent hook in /tmp/hooks.json: agent hooks are not supported yet",
            "skipping empty hook command in /tmp/hooks.json",
            "skipping async hook in /tmp/hooks.json: async hooks are not supported yet",
        ]
    );
}

fn no_hooks() -> HookEvents {
    HookEvents {
        pre_tool_use: Vec::new(),
        permission_request: Vec::new(),
        post_tool_use: Vec::new(),
        session_start: Vec::new(),
        after_compaction: Vec::new(),
        user_prompt_submit: Vec::new(),
        stop: Vec::new(),
    }
}

#[test]
fn discovery_walks_layers_and_events_in_order() {
    let layers = vec![
        HookLayer {
            name: ConfigLayerSource::User { file: "/u/config.toml".to_string() },
            source_path: "/u/hooks.json".to_string(),
            file: HooksFileRead::Parsed {
                hooks: HookEvents {
                    stop: vec![command_group(None)],
                    pre_tool_use: vec![command_group(Some("^Bash$"))],
                    ..no_hooks()
                },
            },
        },
        HookLayer {
            name: ConfigLayerSource::SessionFlags,
            source_path: "/s/hooks.json".to_string(),
            file: HooksFileRead::Absent,
        },
        HookLayer {
            name: ConfigLayerSource::SessionFlags,
            source_path: "/x/hooks.json".to_string(),
            file: HooksFileRead::Unreadable { error: "denied".to_string() },
        },
        HookLayer {
            name: ConfigLayerSource::SessionFlags,
            source_path: "/y/hooks.json".to_string(),
            file: HooksFileRead::Unparsable { error: "bad".to_string() },
        },
        HookLayer {
            name: ConfigLayerSource::Project { dot_codex_folder: "/p/.codex".to_string() },
            source_path: "/p/.codex/hooks.json".to_string(),
            file: HooksFileRead::Parsed {
                hooks: HookEvents { after_compaction: vec![command_group(None)], ..no_hooks() },
            },
        },
    ];
    let result = discover_handlers(Some(&layers));
    let seen: Vec<(HookEventName, i64, HookSource)> = result
        .handlers
        .iter()
        .map(|handler| (handler.event_name, handler.display_order, handler.source))
        .collect();
    assert_eq!(
        seen,
        vec![
            (HookEventName::PreToolUse, 0, HookSource::User),
            (HookEventName::Stop, 1, HookSource::User),
            (HookEventName::AfterCompaction, 2, HookSource::Project),
        ]
    );
    assert_eq!(
        result.warnings,
        vec![
            "failed to read hooks config /x/hooks.json: denied".to_string(),
            "failed to parse hooks config /y/hooks.json: bad".to_string(),
        ]
    );
    let none = discover_handlers(None);
    assert_eq!(none.handlers.len(), 0);
    assert_eq!(none.warnings.len(), 0);
}

fn make_handler(
    event_name: HookEventName,
    matcher: Option<&str>,
    command: &str,
    display_order: i64,
) -> ConfiguredHandler {
    ConfiguredHandler {
        event_name,
        matcher: matcher.map(str::to_owned),
        conditions: HookConditions::default(),
        command: command.to_string(),
        timeout_sec: 5,
        status_message: None,
        source_path: source_path(),
        source: HookSource::User,
        display_order,
    }
}

fn make_handler_with_conditions(
    event_name: HookEventName,
    command: &str,
    display_order: i64,
    conditions: HookConditions,
) -> ConfiguredHandler {
    ConfiguredHandler {
        conditions,
        ..make_handler(event_name, None, command, display_order)
    }
}

fn selection(event_name: HookEventName, matcher_input: Option<&str>) -> HookSelectionContext<'_> {
    HookSelectionContext {
        event_name,
        matcher_input,
        active_profile: None,
        model: None,
        permission_mode: None,
    }
}

fn selection_with_conditions<'a>(
    event_name: HookEventName,
    active_profile: Option<&'a str>,
    model: Option<&'a str>,
    permission_mode: Option<&'a str>,
) -> HookSelectionContext<'a> {
    HookSelectionContext { event_name, matcher_input: None, active_profile, model, permission_mode }
}

fn orders(handlers: &[ConfiguredHandler]) -> Vec<i64> {
    handlers.iter().map(|handler| handler.display_order).collect()
}

#[test]
fn select_handlers_keeps_duplicate_stop_handlers() {
    let handlers = vec![
        make_handler(HookEventName::Stop, None, "echo same", 0),
        make_handler(HookEventName::Stop, None, "echo same", 1),
    ];

    let selected = select_handlers(&handlers, selection(HookEventName::Stop, None));

    assert_eq!(selected.len(), 2);
    assert_eq!(selected[0].display_order, 0);
    assert_eq!(selected[1].display_order, 1);
}

#[test]
fn select_handlers_keeps_overlapping_session_start_matchers() {
    let handlers = vec![
        make_handler(HookEventName::SessionStart, Some("start.*"), "echo same", 0),
        make_handler(HookEventName::SessionStart, Some("^startup$"), "echo same", 1),
    ];

    let selected =
        select_handlers(&handlers, selection(HookEventName::SessionStart, Some("startup")));

    assert_eq!(selected.len(), 2);
    assert_eq!(selected[0].display_order, 0);
    assert_eq!(selected[1].display_order, 1);
}

#[test]
fn compact_hooks_match_trigger() {
    let handlers = vec![
        make_handler(HookEventName::PreCompact, Some("manual"), "echo manual", 0),
        make_handler(HookEventName::PreCompact, Some("auto"), "echo auto", 1),
    ];

    let selected = select_handlers(&handlers, selection(HookEventName::PreCompact, Some("manual")));

    assert_eq!(selected.len(), 1);
    assert_eq!(selected[0].display_order, 0);
}

#[test]
fn select_handlers_filters_by_active_profile_conditions() {
    let handlers = vec![
        make_handler_with_conditions(
            HookEventName::PostToolUse,
            "echo default",
            0,
            HookConditions::default(),
        ),
        make_handler_with_conditions(
            HookEventName::PostToolUse,
            "echo assistant",
            1,
            HookConditions {
                profile: Some("assistant".to_string()),
                ..HookConditions::default()
            },
        ),
        make_handler_with_conditions(
            HookEventName::PostToolUse,
            "echo bd",
            2,
            HookConditions {
                profiles: vec!["bd-driver".to_string(), "bd-worker".to_string()],
                ..HookConditions::default()
            },
        ),
    ];

    let selected = select_handlers(
        &handlers,
        selection_with_conditions(HookEventName::PostToolUse, Some("bd-worker"), None, None),
    );

    assert_eq!(orders(&selected), vec![0, 2]);
}

#[test]
fn select_handlers_requires_all_declared_conditions_to_match() {
    let handlers = vec![make_handler_with_conditions(
        HookEventName::PermissionRequest,
        "echo matched",
        0,
        HookConditions {
            profile: Some("bd-worker".to_string()),
            model: Some("gpt-5.5".to_string()),
            permission_mode: Some("workspace-write".to_string()),
            ..HookConditions::default()
        },
    )];

    let selected = select_handlers(
        &handlers,
        selection_with_conditions(
            HookEventName::PermissionRequest,
            Some("bd-worker"),
            Some("gpt-5.5"),
            Some("workspace-write"),
        ),
    );
    let wrong_profile = select_handlers(
        &handlers,
        selection_with_conditions(
            HookEventName::PermissionRequest,
            Some("assistant"),
            Some("gpt-5.5"),
            Some("workspace-write"),
        ),
    );

    assert_eq!(selected.len(), 1);
    assert_eq!(wrong_profile.len(), 0);
}

#[test]
fn pre_tool_use_matches_tool_name() {
    let handlers = vec![
        make_handler(HookEventName::PreToolUse, Some("^Bash$"), "echo same", 0),
        make_handler(HookEventName::PreToolUse, Some("^Edit$"), "echo same", 1),
    ];

    let selected = select_handlers(&handlers, selection(HookEventName::PreToolUse, Some("Bash")));

    assert_eq!(selected.len(), 1);
    assert_eq!(selected[0].display_order, 0);
}

#[test]
fn post_tool_use_matches_tool_name() {
    let handlers = vec![
        make_handler(HookEventName::PostToolUse, Some("^Bash$"), "echo same", 0),
        make_handler(HookEventName::PostToolUse, Some("^Edit$"), "echo same", 1),
    ];

    let selected = select_handlers(&handlers, selection(HookEventName::PostToolUse, Some("Bash")));

    assert_eq!(selected.len(), 1);
    assert_eq!(selected[0].display_order, 0);
}

#[test]
fn pre_tool_use_star_matcher_matches_all_tools() {
    let handlers = vec![
        make_handler(HookEventName::PreToolUse, Some("*"), "echo same", 0),
        make_handler(HookEventName::PreToolUse, Some("^Edit$"), "echo same", 1),
    ];

    let selected = select_handlers(&handlers, selection(HookEventName::PreToolUse, Some("Bash")));

    assert_eq!(selected.len(), 1);
    assert_eq!(selected[0].display_order, 0);
}

#[test]
fn pre_tool_use_regex_alternation_matches_each_tool_name() {
    let handlers =
        vec![make_handler(HookEventName::PreToolUse, Some("Edit|Write"), "echo same", 0)];

    let selected_edit =
        select_handlers(&handlers, selection(HookEventName::PreToolUse, Some("Edit")));
    let selected_write =
        select_handlers(&handlers, selection(HookEventName::PreToolUse, Some("Write")));
    let selected_bash =
        select_handlers(&handlers, selection(HookEventName::PreToolUse, Some("Bash")));

    assert_eq!(selected_edit.len(), 1);
    assert_eq!(selected_write.len(), 1);
    assert_eq!(selected_bash.len(), 0);
}

#[test]
fn pre_tool_use_aliases_match_once_per_handler() {
    let handlers = vec![
        make_handler(HookEventName::PreToolUse, Some("^apply_patch$"), "echo apply_patch", 0),
        make_handler(HookEventName::PreToolUse, Some("^Write$"), "echo write", 1),
        make_handler(HookEventName::PreToolUse, Some("^Edit$"), "echo edit", 2),
        make_handler(HookEventName::PreToolUse, Some("apply_patch|Write|Edit"), "echo combined", 3),
    ];

    let selected = select_handlers_for_matcher_inputs(
        &handlers,
        selection(HookEventName::PreToolUse, Some("apply_patch")),
        &["apply_patch", "Write", "Edit"],
    );

    assert_eq!(selected.len(), 4);
    assert_eq!(orders(&selected), vec![0, 1, 2, 3]);
}

#[test]
fn user_prompt_submit_ignores_matcher() {
    let handlers = vec![
        make_handler(HookEventName::UserPromptSubmit, Some("^hello"), "echo first", 0),
        make_handler(HookEventName::UserPromptSubmit, Some("["), "echo second", 1),
    ];

    let selected = select_handlers(&handlers, selection(HookEventName::UserPromptSubmit, None));

    assert_eq!(selected.len(), 2);
    assert_eq!(selected[0].display_order, 0);
    assert_eq!(selected[1].display_order, 1);
}

#[test]
fn select_handlers_preserves_declaration_order() {
    let handlers = vec![
        make_handler(HookEventName::Stop, None, "first", 0),
        make_handler(HookEventName::Stop, None, "second", 1),
        make_handler(HookEventName::Stop, None, "third", 2),
    ];

    let selected = select_handlers(&handlers, selection(HookEventName::Stop, None));

    assert_eq!(selected.len(), 3);
    assert_eq!(selected[0].command, "first");
    assert_eq!(selected[1].command, "second");
    assert_eq!(selected[2].command, "third");
}

#[test]
fn handlers_of_other_events_are_not_selected() {
    let handlers = vec![make_handler(HookEventName::Stop, None, "stop", 0)];
    let selected = select_handlers(&handlers, selection(HookEventName::SessionStart, Some("x")));
    assert_eq!(selected.len(), 0);
    assert!(!runs_given(&handlers[0], selection(HookEventName::SessionStart, None), true));
    assert!(runs_given(&handlers[0], selection(HookEventName::Stop, None), true));
}

#[test]
fn matchers_follow_the_pattern_language() {
    assert!(is_match_all(None));
    assert!(is_match_all(Some("")));
    assert!(is_match_all(Some("*")));
    assert!(!is_match_all(Some("a")));
    assert!(matches_matcher(None, None));
    assert!(matches_matcher(Some("*"), Some("anything")));
    assert!(matches_matcher(Some("b+"), Some("abbc")));
    assert!(!matches_matcher(Some("^b+$"), Some("abbc")));
    assert!(!matches_matcher(Some("("), Some("(")));
    assert!(!matches_matcher(Some("a"), None));
    assert_eq!(validate_matcher_pattern("^Bash$"), Ok(()));
    assert_eq!(validate_matcher_pattern("*"), Ok(()));
    assert!(validate_matcher_pattern("(").is_err());
    assert!(admits_given(Some("a"), Some("x"), true, true));
    assert!(!admits_given(Some("a"), Some("x"), true, false));
    assert!(!admits_given(Some("a"), Some("x"), false, true));
    assert!(!admits_given(Some("a"), None, true, true));
    assert!(admits_given(Some("*"), None, false, false));
}

#[test]
fn matcher_counts_only_for_events_that_have_one() {
    assert_eq!(matcher_pattern_for_event(HookEventName::PreToolUse, Some("a")), Some("a"));
    assert_eq!(matcher_pattern_for_event(HookEventName::AfterCompaction, Some("a")), Some("a"));
    assert_eq!(matcher_pattern_for_event(HookEventName::UserPromptSubmit, Some("a")), None);
    assert_eq!(matcher_pattern_for_event(HookEventName::Stop, Some("a")), None);
}

#[test]
fn sessions_hooks_have_thread_scope() {
    assert_eq!(scope_for_event(HookEventName::SessionStart), HookScope::Thread);
    assert_eq!(scope_for_event(HookEventName::PreToolUse), HookScope::Turn);
    assert_eq!(scope_for_event(HookEventName::Stop), HookScope::Turn);
}

fn run_result(exit_code: Option<i32>, stdout: &str, stderr: &str) -> CommandRunResult {
    CommandRunResult {
        started_at: 1,
        completed_at: 2,
        duration_ms: 7,
        exit_code,
        stdout: stdout.to_string(),
        stderr: stderr.to_string(),
        error: None,
    }
}

#[test]
fn summaries_carry_the_handler_and_the_run() {
    let handler = make_handler(HookEventName::Stop, None, "echo", 4);
    let running = running_summary_at(&handler, "run".to_string(), 9);
    assert_eq!(running.id, "run");
    assert_eq!(running.status, HookRunStatus::Running);
    assert_eq!(running.started_at, 9);
    assert_eq!(running.completed_at, None);
    assert_eq!(running.display_order, 4);
    assert_eq!(running.entries.len(), 0);
    let now = running_summary(&handler, "run".to_string());
    assert!(now.started_at > 1_500_000_000);
    let done = completed_summary(
        &handler,
        "run".to_string(),
        &run_result(Some(0), "", ""),
        HookRunStatus::Completed,
        vec![HookOutputEntry { kind: HookOutputEntryKind::Context, text: "c".to_string() }],
    );
    assert_eq!(done.started_at, 1);
    assert_eq!(done.completed_at, Some(2));
    assert_eq!(done.duration_ms, Some(7));
    assert_eq!(done.entries.len(), 1);
}

#[test]
fn completed_runs_return_to_configured_order() {
    let handler = make_handler(HookEventName::Stop, None, "echo", 0);
    let parsed = |name: &str, completion_order: usize| ParsedHandler {
        completed: HookCompletedEvent {
            turn_id: None,
            run: running_summary_at(&handler, name.to_string(), 0),
        },
        data: name.to_string(),
        completion_order,
    };
    let ordered = order_completed(vec![
        CompletedRun { configured_order: 2, parsed: parsed("c", 0) },
        CompletedRun { configured_order: 0, parsed: parsed("a", 1) },
        CompletedRun { configured_order: 1, parsed: parsed("b", 2) },
    ]);
    let names: Vec<(String, usize)> =
        ordered.into_iter().map(|parsed| (parsed.data, parsed.completion_order)).collect();
    assert_eq!(
        names,
        vec![("a".to_string(), 1), ("b".to_string(), 2), ("c".to_string(), 0)]
    );
}

fn after_handler(matcher: Option<&str>) -> ConfiguredHandler {
    make_handler(HookEventName::AfterCompaction, matcher, "echo ok", 0)
}

fn request(source: AfterCompactionSource) -> AfterCompactionRequest {
    AfterCompactionRequest {
        session_id: ThreadId { bits: 0xb5f6c1c2_1111_2222_3333_444455556666 },
        turn_id: "turn-1".to_string(),
        cwd: "/tmp".to_string(),
        transcript_path: None,
        active_profile: Some("bd-worker".to_string()),
        model: "gpt-test".to_string(),
        permission_mode: "default".to_string(),
        source,
    }
}

#[test]
fn preview_filters_after_compaction_by_source() {
    let handlers = vec![after_handler(Some("^auto$")), after_handler(Some("^manual$"))];

    let matched = matched_handlers(&handlers, &request(AfterCompactionSource::Auto));
    let ids: Vec<String> = matched.iter().map(|_| "run".to_string()).collect();
    let runs = preview(&matched, &ids);

    assert_eq!(runs.len(), 1);
}

#[test]
fn after_compaction_sources_have_names() {
    assert_eq!(AfterCompactionSource::Manual.as_str(), "manual");
    assert_eq!(AfterCompactionSource::Auto.as_str(), "auto");
    assert_eq!(AfterCompactionSource::ModelSwitch.as_str(), "modelSwitch");
}

#[test]
fn after_compaction_preview_starts_each_matched_run() {
    let matched = vec![after_handler(None), after_handler(None)];
    let runs = preview_at(&matched, &vec!["x".to_string(), "y".to_string()], 11);
    assert_eq!(runs.len(), 2);
    assert_eq!(runs[0].id, "x");
    assert_eq!(runs[1].id, "y");
    assert_eq!(runs[1].started_at, 11);
    assert_eq!(runs[1].status, HookRunStatus::Running);
}

#[test]
fn after_compaction_command_input_names_the_event() {
    let input = command_input(&request(AfterCompactionSource::Auto));
    assert_eq!(input.session_id, "b5f6c1c2-1111-2222-3333-444455556666");
    assert_eq!(input.hook_event_name, "AfterCompaction");
    assert_eq!(input.source, "auto");
    assert_eq!(input.cwd, "/tmp");
    assert_eq!(input.active_profile.as_deref(), Some("bd-worker"));
}

fn parse(
    result: &CommandRunResult,
    parsed: Option<AfterCompactionOutput>,
) -> ParsedHandler<AfterCompactionHandlerData> {
    parse_completed(
        &after_handler(None),
        "run".to_string(),
        result,
        parsed,
        Some("turn-1".to_string()),
    )
}

fn entries(parsed: &ParsedHandler<AfterCompactionHandlerData>) -> Vec<(HookOutputEntryKind, String)> {
    parsed
        .completed
        .run
        .entries
        .iter()
        .map(|entry| (entry.kind, entry.text.clone()))
        .collect()
}

#[test]
fn after_compaction_reads_plain_output_as_context() {
    let parsed = parse(&run_result(Some(0), "  hello \n", ""), None);
    assert_eq!(parsed.completed.run.status, HookRunStatus::Completed);
    assert_eq!(parsed.completed.turn_id.as_deref(), Some("turn-1"));
    assert_eq!(entries(&parsed), vec![(HookOutputEntryKind::Context, "hello".to_string())]);
    assert_eq!(parsed.data.additional_contexts_for_model, vec!["hello".to_string()]);

    let silent = parse(&run_result(Some(0), " \n", ""), None);
    assert_eq!(silent.completed.run.status, HookRunStatus::Completed);
    assert_eq!(entries(&silent), Vec::new());
    assert_eq!(silent.data.additional_contexts_for_model.len(), 0);
}

#[test]
fn after_compaction_reads_structured_output() {
    let parsed = parse(
        &run_result(Some(0), "{\"systemMessage\":\"careful\"}", ""),
        Some(AfterCompactionOutput {
            system_message: Some("careful".to_string()),
            additional_context: Some("more".to_string()),
        }),
    );
    assert_eq!(parsed.completed.run.status, HookRunStatus::Completed);
    assert_eq!(
        entries(&parsed),
        vec![
            (HookOutputEntryKind::Warning, "careful".to_string()),
            (HookOutputEntryKind::Context, "more".to_string()),
        ]
    );
    assert_eq!(parsed.data.additional_contexts_for_model, vec!["more".to_string()]);
}

#[test]
fn after_compaction_fails_on_broken_json_and_bad_exits() {
    let broken = parse(&run_result(Some(0), "{oops", ""), None);
    assert_eq!(broken.completed.run.status, HookRunStatus::Failed);
    assert_eq!(
        entries(&broken),
        vec![(
            HookOutputEntryKind::Error,
            "hook returned invalid after compaction JSON output".to_string()
        )]
    );

    let code = parse(&run_result(Some(3), "", ""), None);
    assert_eq!(code.completed.run.status, HookRunStatus::Failed);
    assert_eq!(
        entries(&code),
        vec![(HookOutputEntryKind::Error, "hook exited with code 3".to_string())]
    );

    let loud = parse(&run_result(Some(-2), "ignored", " broken pipe\n"), None);
    assert_eq!(
        entries(&loud),
        vec![
            (HookOutputEntryKind::Error, "hook exited with code -2".to_string()),
            (HookOutputEntryKind::Error, "broken pipe".to_string()),
        ]
    );

    let gone = parse(&run_result(None, "", ""), None);
    assert_eq!(gone.completed.run.status, HookRunStatus::Failed);
    assert_eq!(
        entries(&gone),
        vec![(
            HookOutputEntryKind::Error,
            "hook terminated without an exit code".to_string()
        )]
    );

    let mut failed = run_result(None, "", "");
    failed.error = Some("no such command".to_string());
    let failed = parse(&failed, None);
    assert_eq!(failed.completed.run.status, HookRunStatus::Failed);
    assert_eq!(
        entries(&failed),
        vec![(HookOutputEntryKind::Error, "no such command".to_string())]
    );
}

#[test]
fn after_compaction_outcome_keeps_every_context() {
    let first = parse(&run_result(Some(0), "one", ""), None);
    let second = parse(&run_result(Some(1), "", "bad"), None);
    let third = parse(&run_result(Some(0), "two", ""), None);
    let outcome = after_compaction_outcome(vec![first, second, third]);
    assert_eq!(outcome.hook_events.len(), 3);
    assert_eq!(outcome.additional_contexts, vec!["one".to_string(), "two".to_string()]);
    let failed = serialization_failure_outcome(outcome.hook_events);
    assert_eq!(failed.hook_events.len(), 3);
    assert_eq!(failed.additional_contexts.len(), 0);
}

#[test]
fn trimmed_text_is_kept_unless_blank() {
    assert_eq!(trimmed_non_empty(" a b \n"), Some("a b".to_string()));
    assert_eq!(trimmed_non_empty(" \t"), None);
}
