use codex_agents::daemon::{
    initialize_params, is_initialize_response, parse_version_from_user_agent, proxy_input_action,
    proxy_next, proxy_output_action, read_message_step, ProxyEnd, ProxyInputAction, ProxyNext,
    ProxyOutputAction, ProxyReceived, ProxyToSend, ReadMessageStep, RequestId, ServerMessage,
    SocketFrame, INITIALIZE_REQUEST_ID,
};
use codex_agents::desktop::{
    desktop_remote_control_mode, is_desktop_compatible_override, parse_enabled_value,
    plan_shared_server, select_shared_mode_client_name, shared_mode_enabled,
    validate_config_overrides, AppServerTransport, DesktopRemoteControlMode,
    DesktopSharedAppServerOptions,
};
use codex_agents::version::{
    codex_cli_display_version, CODEX_BUILD_LABEL, CODEX_CLI_VERSION,
};

#[test]
fn parses_version_from_codex_user_agent() {
    assert_eq!(
        parse_version_from_user_agent(
            "codex_app_server_daemon/1.2.3 (Linux 6.8.0; x86_64) codex_cli_rs/1.2.3",
        )
        .expect("version"),
        "1.2.3"
    );
}

#[test]
fn rejects_user_agent_without_version() {
    assert!(parse_version_from_user_agent("codex_app_server_daemon").is_err());
}

#[test]
fn version_is_the_first_word_behind_the_slash() {
    assert_eq!(parse_version_from_user_agent("a/1 b/2"), Ok("1".to_string()));
    assert_eq!(parse_version_from_user_agent("a/  x y"), Ok("x".to_string()));
    assert!(parse_version_from_user_agent("a/").is_err());
    assert!(parse_version_from_user_agent("a/ \t").is_err());
}

#[test]
fn shared_mode_environment_values_are_explicit() {
    assert!(parse_enabled_value("true").expect("true"));
    assert!(!parse_enabled_value("0").expect("false"));
    assert!(parse_enabled_value("sometimes").is_err());
}

#[test]
fn desktop_override_allows_only_the_known_app_default() {
    assert!(is_desktop_compatible_override("features.code_mode_host=true"));
    assert!(!is_desktop_compatible_override("model=gpt-5.5"));
    assert!(!is_desktop_compatible_override("features.code_mode_host=false"));
}

#[test]
fn explicit_remote_control_flags_override_persisted_resolution() {
    assert_eq!(desktop_remote_control_mode(true, true), DesktopRemoteControlMode::Enabled);
    assert_eq!(desktop_remote_control_mode(false, true), DesktopRemoteControlMode::Disabled);
    assert_eq!(
        desktop_remote_control_mode(false, false),
        DesktopRemoteControlMode::ResolvePersisted
    );
}

#[test]
fn desktop_originator_overrides_the_configured_shared_client_name() {
    assert_eq!(
        select_shared_mode_client_name(
            Some(" Codex Desktop ".to_string()),
            Some("CustomChatGPT".to_string()),
        ),
        Some("Codex Desktop".to_string())
    );
    assert_eq!(
        select_shared_mode_client_name(None, Some(" CustomChatGPT ".to_string())),
        Some("CustomChatGPT".to_string())
    );
}

#[test]
fn blank_client_names_count_as_none() {
    assert_eq!(
        select_shared_mode_client_name(Some("  ".to_string()), Some("x".to_string())),
        None
    );
    assert_eq!(select_shared_mode_client_name(None, None), None);
}

#[test]
fn every_spelling_of_the_switch_is_read() {
    for on in ["1", "true", "YES", " On "] {
        assert!(parse_enabled_value(on).expect("on"), "{on}");
    }
    for off in ["", "0", "False", "no", " off\n"] {
        assert!(!parse_enabled_value(off).expect("off"), "{off}");
    }
    let error = parse_enabled_value(" Maybe ").expect_err("neither on nor off");
    assert_eq!(
        error.message("SWITCH"),
        "invalid SWITCH value ` Maybe `; expected true or false"
    );
    assert!(!shared_mode_enabled(None).expect("unset is off"));
    assert!(shared_mode_enabled(Some("on")).expect("on"));
}

#[test]
fn other_overrides_are_listed() {
    let fine = vec![" features.code_mode_host = true ".to_string()];
    assert_eq!(validate_config_overrides(&fine), Ok(()));
    let mixed = vec!["a=1".to_string(), fine[0].clone(), "b".to_string()];
    assert_eq!(
        validate_config_overrides(&mixed),
        Err("desktop shared app-server mode cannot preserve these command-line config overrides: a=1, b; move them to config.toml".to_string())
    );
}

fn options() -> DesktopSharedAppServerOptions {
    DesktopSharedAppServerOptions {
        transport: AppServerTransport::Stdio,
        raw_overrides: Vec::new(),
        strict_config: false,
        analytics_default_enabled: true,
        remote_control: false,
        remote_control_disabled: true,
        remote_control_client_name: None,
    }
}

#[test]
fn shared_server_is_planned_only_where_it_can_work() {
    assert!(matches!(plan_shared_server(false, options(), None), Ok(None)));
    let plan = plan_shared_server(true, options(), Some("Shared".to_string()))
        .expect("plan")
        .expect("enabled");
    assert!(plan.analytics_default_enabled);
    assert_eq!(plan.remote_control_mode, DesktopRemoteControlMode::Disabled);
    assert_eq!(plan.remote_control_client_name.as_deref(), Some("Shared"));
    let named = DesktopSharedAppServerOptions {
        remote_control_client_name: Some("Own".to_string()),
        ..options()
    };
    let plan = plan_shared_server(true, named, Some("Shared".to_string()))
        .expect("plan")
        .expect("enabled");
    assert_eq!(plan.remote_control_client_name.as_deref(), Some("Own"));
    let tcp = DesktopSharedAppServerOptions { transport: AppServerTransport::Other, ..options() };
    assert_eq!(
        plan_shared_server(true, tcp, None).err().as_deref(),
        Some("desktop shared app-server mode requires the stdio transport")
    );
    let strict = DesktopSharedAppServerOptions { strict_config: true, ..options() };
    assert_eq!(
        plan_shared_server(true, strict, None).err().as_deref(),
        Some("desktop shared app-server mode does not support `--strict-config`")
    );
    let overridden =
        DesktopSharedAppServerOptions { raw_overrides: vec!["x=y".to_string()], ..options() };
    assert!(plan_shared_server(true, overridden, None).is_err());
}

#[test]
fn proxy_writes_lines_and_answers_pings() {
    match proxy_output_action(ProxyReceived::Frame(SocketFrame::Text("response".to_string()))) {
        ProxyOutputAction::Write(line) => assert_eq!(line, "response\n"),
        _ => panic!("text is written"),
    }
    match proxy_output_action(ProxyReceived::Frame(SocketFrame::Ping(vec![1, 2]))) {
        ProxyOutputAction::AnswerPing(payload) => assert_eq!(payload, vec![1, 2]),
        _ => panic!("pings are answered"),
    }
    assert!(matches!(
        proxy_output_action(ProxyReceived::Frame(SocketFrame::Pong)),
        ProxyOutputAction::Skip
    ));
    assert!(matches!(
        proxy_output_action(ProxyReceived::Frame(SocketFrame::Close)),
        ProxyOutputAction::Finish
    ));
    assert!(matches!(proxy_output_action(ProxyReceived::Ended), ProxyOutputAction::Finish));
    assert!(matches!(proxy_output_action(ProxyReceived::Broken), ProxyOutputAction::Fail));
}

#[test]
fn proxy_sends_lines_until_the_input_ends() {
    match proxy_input_action(ProxyToSend::Line(Some("request".to_string()))) {
        ProxyInputAction::SendText(line) => assert_eq!(line, "request"),
        _ => panic!("lines are sent"),
    }
    match proxy_input_action(ProxyToSend::Pong(vec![7])) {
        ProxyInputAction::SendPong(payload) => assert_eq!(payload, vec![7]),
        _ => panic!("pongs are sent"),
    }
    assert!(matches!(proxy_input_action(ProxyToSend::Line(None)), ProxyInputAction::Close));
    assert!(matches!(proxy_input_action(ProxyToSend::Broken), ProxyInputAction::Fail));
    assert_eq!(proxy_next(ProxyEnd::Input { ok: true }), ProxyNext::AwaitOutput);
    assert_eq!(proxy_next(ProxyEnd::Input { ok: false }), ProxyNext::Fail);
    assert_eq!(proxy_next(ProxyEnd::Output { ok: true }), ProxyNext::Succeed);
    assert_eq!(proxy_next(ProxyEnd::Output { ok: false }), ProxyNext::Fail);
}

#[test]
fn probe_recognises_its_own_response() {
    let params = initialize_params("1.2.3", true);
    assert_eq!(params.client_version, "1.2.3");
    assert!(is_initialize_response(&ServerMessage::Response {
        id: RequestId::Integer(INITIALIZE_REQUEST_ID),
    }));
    assert!(!is_initialize_response(&ServerMessage::Response { id: RequestId::Integer(2) }));
    assert!(!is_initialize_response(&ServerMessage::Response {
        id: RequestId::Text("1".to_string()),
    }));
    assert!(!is_initialize_response(&ServerMessage::Other));
    assert!(matches!(
        read_message_step(Some(SocketFrame::Text("{}".to_string()))),
        ReadMessageStep::Parse(text) if text == "{}"
    ));
    assert!(matches!(read_message_step(Some(SocketFrame::Pong)), ReadMessageStep::Skip));
    assert!(matches!(read_message_step(Some(SocketFrame::Close)), ReadMessageStep::Skip));
    assert!(matches!(
        read_message_step(None),
        ReadMessageStep::Fail(message) if message == "app-server closed the control socket"
    ));
}

#[test]
fn display_version_names_the_build() {
    assert_eq!(codex_cli_display_version(None), "0.144.0 [custom]");
    assert_eq!(
        codex_cli_display_version(Some(CODEX_BUILD_LABEL)),
        codex_cli_display_version(None)
    );
    assert_eq!(codex_cli_display_version(Some("nightly-7")), "0.144.0 [nightly-7]");
    assert_eq!(codex_cli_display_version(Some("")), format!("{CODEX_CLI_VERSION} []"));
}

#[test]
fn relays_write_every_text_until_the_stream_ends() {
    let text = |text: &str| ProxyReceived::Frame(SocketFrame::Text(text.to_string()));
    let received = vec![
        text("one"),
        ProxyReceived::Frame(SocketFrame::Binary),
        ProxyReceived::Frame(SocketFrame::Ping(vec![7])),
        text(""),
        ProxyReceived::Frame(SocketFrame::Pong),
        text("two\nlines"),
        ProxyReceived::Frame(SocketFrame::Close),
        text("late"),
    ];
    let mut output = String::new();
    let mut pongs = Vec::new();
    let mut finished = false;
    for frame in received {
        match proxy_output_action(frame) {
            ProxyOutputAction::Write(line) => output.push_str(&line),
            ProxyOutputAction::AnswerPing(payload) => pongs.push(payload),
            ProxyOutputAction::Skip => {}
            ProxyOutputAction::Finish => {
                finished = true;
                break;
            }
            ProxyOutputAction::Fail => panic!("the stream is whole"),
        }
    }
    assert_eq!(output, "one\n\ntwo\nlines\n");
    assert_eq!(pongs, vec![vec![7]]);
    assert!(finished);
}

#[test]
fn relays_send_every_line_until_the_input_ends() {
    let lines = vec![Some("one".to_string()), Some(String::new()), None];
    let mut sent = Vec::new();
    for line in lines {
        match proxy_input_action(ProxyToSend::Line(line)) {
            ProxyInputAction::SendText(text) => sent.push(text),
            ProxyInputAction::Close => break,
            ProxyInputAction::SendPong(_) | ProxyInputAction::Fail => panic!("only lines"),
        }
    }
    assert_eq!(sent, vec!["one".to_string(), String::new()]);
}
