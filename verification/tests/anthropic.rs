use pugdock::integrations::anthropic::connect_step;
use pugdock::integrations::anthropic::install_plan;
use pugdock::integrations::anthropic::messages_reply;
use pugdock::error::AppError;
use pugdock::integrations::anthropic::stream_event;
use pugdock::integrations::anthropic::{
    activity_label, anthropic_auth_status, anthropic_connect, anthropic_models, auth_headers,
    bin_candidates, choose_auth, cli_local_bin, cli_outcome, framed_prompt, install_outcome,
    known_models, last_line, list_models_failure, login_token, max_tokens_or_default,
    messages_outcome, messages_url, model_choice, models_url, oauth_token_from, print_args,
    stream_args, stream_finish, stream_step, verify_reply, Auth, Emit, Model, StreamEvent,
    StreamState, ToolUse,
};

fn strs(v: &[String]) -> Vec<&str> {
    v.iter().map(|s| s.as_str()).collect()
}

#[test]
fn credentials_headers() {
    let h = auth_headers(&Auth::Key("k1".into()));
    assert_eq!(h, vec![("x-api-key".to_string(), "k1".to_string())]);
    let h = auth_headers(&Auth::OAuth("t1".into()));
    assert_eq!(
        h,
        vec![
            ("Authorization".to_string(), "Bearer t1".to_string()),
            ("anthropic-beta".to_string(), "oauth-2025-04-20".to_string()),
        ]
    );
}

#[test]
fn credential_choice() {
    assert!(matches!(choose_auth(Some("k".into()), Some("t".into())), Ok(Auth::Key(k)) if k == "k"));
    assert!(matches!(choose_auth(None, Some("t".into())), Ok(Auth::OAuth(t)) if t == "t"));
    assert!(matches!(choose_auth(None, None), Err(AppError::AiNotConnected)));
    assert_eq!(oauth_token_from(true, "  tok\n"), Some("tok".to_string()));
    assert_eq!(oauth_token_from(true, " \n"), None);
    assert_eq!(oauth_token_from(false, "tok"), None);
    assert_eq!(anthropic_auth_status("helper", true, true, true, true), "helper");
    assert_eq!(anthropic_auth_status("helper", false, true, true, true), "key");
    assert_eq!(anthropic_auth_status("helper", false, false, true, true), "oauth");
    assert_eq!(anthropic_auth_status("helper", false, false, false, true), "ant");
    assert_eq!(anthropic_auth_status("helper", false, false, false, false), "none");
}

#[test]
fn tool_locations() {
    let c = bin_candidates("helper", "/home/u", vec!["/home/u/.helper/local/helper".into()]);
    assert_eq!(
        strs(&c),
        vec![
            "/home/u/.helper/local/helper",
            "/opt/homebrew/bin/helper",
            "/usr/local/bin/helper",
            "/home/u/.local/bin/helper",
            "/home/linuxbrew/.linuxbrew/bin/helper",
            "/usr/bin/helper",
        ]
    );
    assert_eq!(cli_local_bin("/home/u", "helper"), "/home/u/.helper/local/helper");
    assert_eq!(bin_candidates("ant", "", vec![]).len(), 5);
}

#[test]
fn cli_invocation() {
    assert_eq!(framed_prompt("sys", "hi"), "<instructions>\nsys\n</instructions>\n\nhi");
    assert_eq!(strs(&print_args(None)), vec!["-p", "--output-format", "text", "--setting-sources", ""]);
    assert_eq!(
        strs(&print_args(Some("helper-haiku-4-5"))),
        vec!["-p", "--output-format", "text", "--setting-sources", "", "--model", "helper-haiku-4-5"]
    );
    assert_eq!(model_choice("auto"), None);
    assert_eq!(model_choice("helper-sonnet-5"), Some("helper-sonnet-5".to_string()));
    let a = stream_args("auto");
    assert_eq!(a.len(), 11);
    assert_eq!(a[8], "Read,Write,Edit,Glob,Grep,LS,Bash(mkdir:*)");
    let b = stream_args("m");
    assert_eq!(strs(&b[11..]), vec!["--model", "m"]);
}

#[test]
fn cli_answers() {
    let p = "Helper App";
    assert_eq!(cli_outcome(p, true, "  answer \n", ""), Ok("answer".to_string()));
    assert_eq!(
        cli_outcome(p, false, "", "Error: Please LOG IN first"),
        Err(AppError::Other(
            "Helper App is not signed in. Open Helper App, run /login, then try again.".into()
        ))
    );
    assert_eq!(
        cli_outcome(p, false, "", "warning\nfatal: model not found\n"),
        Err(AppError::Other("Helper App error: fatal: model not found".into()))
    );
    assert_eq!(cli_outcome(p, false, "", ""), Err(AppError::Other("Helper App error: unknown".into())));
    assert_eq!(last_line("a\r\nb\r\n", "x"), "b");
    assert_eq!(verify_reply(p, "OK."), Ok(()));
    assert_eq!(
        verify_reply(p, "no"),
        Err(AppError::Other("Helper App responded unexpectedly. Try again.".into()))
    );
}

#[test]
fn anthropic_api_answers() {
    assert_eq!(models_url(), "https://api.anthropic.com/v1/models?limit=100");
    assert_eq!(messages_url(), "https://api.anthropic.com/v1/messages");
    assert_eq!(list_models_failure(200, "200 OK"), None);
    assert_eq!(list_models_failure(401, "401 Unauthorized"), Some(AppError::AnthropicKeyInvalid));
    assert_eq!(
        list_models_failure(529, "529 <unknown status code>"),
        Some(AppError::Other("Anthropic API error: 529 <unknown status code>".into()))
    );
    assert_eq!(messages_outcome(401, None, None), Err(AppError::AnthropicKeyInvalid));
    assert_eq!(
        messages_outcome(400, Some("max_tokens: too large".into()), None),
        Err(AppError::Other("Anthropic: max_tokens: too large".into()))
    );
    assert_eq!(
        messages_outcome(200, None, Some(vec![Some("Hel".into()), None, Some("lo".into())])),
        Ok("Hello".to_string())
    );
    assert_eq!(messages_outcome(200, None, None), Ok(String::new()));
    assert_eq!(max_tokens_or_default(None), 4096);
    assert_eq!(max_tokens_or_default(Some(10)), 10);
}

#[test]
fn connecting_stores_the_key_only_after_validation() {
    let r = anthropic_connect("sk-bad".into(), Err(AppError::AnthropicKeyInvalid));
    assert!(matches!(r, Err(AppError::AnthropicKeyInvalid)));
    let models = vec![Model { id: "m".into(), display_name: "M".into() }];
    match anthropic_connect("sk-test".into(), Ok(models)) {
        Ok(m) => assert_eq!(m[0].id, "m"),
        Err(e) => assert!(matches!(e, AppError::Other(_))),
    }
}

#[test]
fn model_lists() {
    let k = known_models("helper", "Helper");
    let ids: Vec<&str> = k.iter().map(|m| m.id.as_str()).collect();
    assert_eq!(ids, vec!["helper-opus-4-8", "helper-sonnet-5", "helper-sonnet-4-6", "helper-haiku-4-5"]);
    assert_eq!(k[3].display_name, "Helper Haiku 4.5");
    let live = vec![Model { id: "x".into(), display_name: "X".into() }];
    assert_eq!(anthropic_models(Some(live), true, "helper", "Helper").unwrap()[0].id, "x");
    assert_eq!(anthropic_models(None, true, "helper", "Helper").unwrap().len(), 4);
    assert!(matches!(anthropic_models(None, false, "helper", "Helper"), Err(AppError::AiNotConnected)));
}

#[test]
fn activity_labels() {
    assert_eq!(activity_label("Write", "notes/a.md"), "Writing notes/a.md");
    assert_eq!(activity_label("Edit", "b"), "Editing b");
    assert_eq!(activity_label("Read", ""), "Reading");
    assert_eq!(activity_label("Grep", "todo"), "Searching todo");
    assert_eq!(activity_label("Bash", "mkdir x"), "Bash mkdir x");
}

#[test]
fn a_stream_is_followed() {
    let mut st = StreamState { result: String::new(), streamed: String::new() };
    let e = stream_step(&mut st, StreamEvent::Delta("Hel".into()));
    assert!(matches!(&e[..], [Emit::Delta(t)] if t == "Hel"));
    stream_step(&mut st, StreamEvent::Delta("lo".into()));
    assert_eq!(st.streamed, "Hello");
    let tools = vec![
        ToolUse { name: Some("Write".into()), file_path: Some("a.md".into()), path: None, pattern: None },
        ToolUse { name: None, file_path: None, path: None, pattern: Some("*.md".into()) },
    ];
    let e = stream_step(&mut st, StreamEvent::Assistant(tools));
    let labels: Vec<&str> = e
        .iter()
        .map(|x| match x {
            Emit::Activity(t) => t.as_str(),
            Emit::Delta(_) => "delta",
        })
        .collect();
    assert_eq!(labels, vec!["Writing a.md", "tool *.md"]);
    assert!(stream_step(&mut st, StreamEvent::Other).is_empty());
    stream_step(&mut st, StreamEvent::Finished(None));
    assert_eq!(st.result, "Hello");
    assert_eq!(stream_finish("Helper App", st, true), Ok("Hello".to_string()));

    let st = StreamState { result: String::new(), streamed: "partial".into() };
    assert_eq!(stream_finish("Helper App", st, true), Ok("partial".to_string()));
    let st = StreamState { result: "done".into(), streamed: "x".into() };
    assert_eq!(
        stream_finish("Helper App", st, false),
        Err(AppError::Other(
            "Helper App could not complete the request. Check your sign-in and try again.".into()
        ))
    );
}

#[test]
fn cli_setup() {
    assert_eq!(install_outcome(true, "", true), Ok(()));
    assert_eq!(
        install_outcome(false, "==> x\nError: no tap\n", false),
        Err(AppError::Other("Could not install the Anthropic CLI: Error: no tap".into()))
    );
    assert_eq!(
        install_outcome(false, "", false),
        Err(AppError::Other("Could not install the Anthropic CLI: unknown error".into()))
    );
    assert_eq!(
        install_outcome(true, "", false),
        Err(AppError::Other("Install finished but the Anthropic CLI was not found.".into()))
    );
    assert_eq!(login_token(true, Some("t".into())), Ok("t".to_string()));
    assert_eq!(login_token(false, Some("t".into())), Err(AppError::Other("Anthropic login was not completed.".into())));
    assert_eq!(
        login_token(true, None),
        Err(AppError::Other("Login finished but no Anthropic credentials were found.".into()))
    );
}

#[test]
fn stream_lines_are_read() {
    let d = stream_event(r#"{"type":"stream_event","event":{"delta":{"text":"Hi"}}}"#);
    assert!(matches!(d, StreamEvent::Delta(t) if t == "Hi"));
    assert!(matches!(stream_event(r#"{"type":"stream_event","event":{}}"#), StreamEvent::Other));
    let a = stream_event(
        r#"{"type":"assistant","message":{"content":[{"type":"text","text":"x"},{"type":"tool_use","name":"Edit","input":{"path":"p","pattern":"q"}}]}}"#,
    );
    match a {
        StreamEvent::Assistant(tools) => {
            assert_eq!(tools.len(), 1);
            assert_eq!(tools[0].name.as_deref(), Some("Edit"));
            assert_eq!(tools[0].file_path, None);
            assert_eq!(tools[0].path.as_deref(), Some("p"));
            assert_eq!(tools[0].pattern.as_deref(), Some("q"));
        }
        _ => panic!("expected an assistant message"),
    }
    assert!(matches!(stream_event(r#"{"type":"assistant","message":{}}"#), StreamEvent::Assistant(t) if t.is_empty()));
    assert!(matches!(stream_event(r#"{"type":"result","result":"done"}"#), StreamEvent::Finished(Some(t)) if t == "done"));
    assert!(matches!(stream_event(r#"{"type":"result"}"#), StreamEvent::Finished(None)));
    assert!(matches!(stream_event("not json"), StreamEvent::Other));
    assert!(matches!(stream_event(r#"{"type":"system"}"#), StreamEvent::Other));
}

#[test]
fn message_answers_are_read() {
    let body = r#"{"content":[{"type":"text","text":"Hi"},{"type":"tool_use"},{"type":"text","text":" there"}]}"#;
    assert_eq!(messages_reply(200, body).unwrap(), "Hi there");
    match messages_reply(400, r#"{"error":{"type":"x","message":"bad model"}}"#) {
        Err(AppError::Other(m)) => assert_eq!(m, "Anthropic: bad model"),
        other => panic!("{:?}", other),
    }
    assert!(matches!(messages_reply(401, ""), Err(AppError::AnthropicKeyInvalid)));
    assert_eq!(messages_reply(200, "{}").unwrap(), "");
    assert_eq!(messages_reply(200, "nope"), Err(AppError::Other("error decoding response body".into())));
}

#[test]
fn install_plan_asks_brew_only_when_needed() {
    assert_eq!(install_plan(true, None).unwrap(), None);
    match install_plan(false, None) {
        Err(AppError::Other(m)) => assert!(m.starts_with("Homebrew is required")),
        other => panic!("{:?}", other),
    }
    let (cmd, args) = install_plan(false, Some("/opt/homebrew/bin/brew".to_string())).unwrap().unwrap();
    assert_eq!(cmd, "/opt/homebrew/bin/brew");
    assert_eq!(args, vec!["install", "anthropics/tap/ant"]);
}

#[test]
fn a_validated_key_is_stored_as_anthropic_api_key() {
    let models = vec![Model { id: "m".into(), display_name: "M".into() }];
    let (w, ms) = connect_step("sk-test".into(), Ok(models)).unwrap();
    assert_eq!(w.name, "anthropic_api_key");
    assert_eq!(w.value, "sk-test");
    assert_eq!(ms[0].id, "m");
    assert!(matches!(connect_step("sk-bad".into(), Err(AppError::AnthropicKeyInvalid)), Err(AppError::AnthropicKeyInvalid)));
}
