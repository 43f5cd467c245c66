use deco::host::{
    build_spec, verify, within_any, Connection, HostConfig, HostError, HostLimits, HostSpec,
    PROTOCOL_VERSION,
};
use deco::path::PathBuf;
use deco::protocol::{Message, Request, Response};
use serde_json::Value;

fn config() -> HostConfig {
    HostConfig {
        node: PathBuf::from("/usr/bin/node"),
        bootstrap: PathBuf::from("/opt/deco/host/bootstrap.js"),
        readable_roots: vec![
            PathBuf::from("/opt/deco/host"),
            PathBuf::from("/home/u/.config/deco/extensions/acme.ext"),
        ],
        cwd: PathBuf::from("/home/u/.config/deco/extensions/acme.ext"),
        limits: HostLimits::default(),
        node_permission_model: true,
        allow_code_generation: false,
    }
}

fn object(pairs: Vec<(&str, Value)>) -> Value {
    Value::Object(
        pairs
            .into_iter()
            .map(|(key, value)| (key.to_owned(), value))
            .collect(),
    )
}

/// One message as a line.
fn encode(message: &Message) -> String {
    let value = match message {
        Message::Request(request) => object(vec![
            ("type", Value::from("request")),
            ("id", Value::from(request.id)),
            ("method", Value::from(request.method.as_str())),
            ("params", request.params.clone()),
        ]),
        Message::Response(response) => object(vec![
            ("type", Value::from("response")),
            ("id", Value::from(response.id)),
            ("result", response.result.clone().unwrap_or(Value::Null)),
        ]),
        Message::Notification(note) => object(vec![
            ("type", Value::from("notification")),
            ("method", Value::from(note.method.as_str())),
            ("params", note.params.clone()),
        ]),
    };
    format!("{value}\n")
}

/// One line as a message.
fn decode(line: &String) -> Result<Message, String> {
    let value: Value = serde_json::from_str(line).map_err(|error| error.to_string())?;
    match value["type"].as_str() {
        Some("request") => Ok(Message::Request(Request {
            id: value["id"].as_u64().ok_or("no id")?,
            method: value["method"].as_str().ok_or("no method")?.to_owned(),
            params: value["params"].clone(),
        })),
        Some("response") => Ok(Message::Response(Response {
            id: value["id"].as_u64().ok_or("no id")?,
            result: value.get("result").cloned(),
            error: None,
        })),
        _ => Err("no type".to_owned()),
    }
}

#[test]
fn the_spec_caps_the_heap() {
    let spec = build_spec(&config(), "acme.ext", None);
    assert!(spec.args.iter().any(|a| a == "--max-old-space-size=512"));
}

#[test]
fn the_spec_enables_nodes_permission_model_without_process_or_worker_access() {
    let spec = build_spec(&config(), "acme.ext", None);
    assert!(spec.args.iter().any(|a| a == "--permission"));
    assert!(spec
        .args
        .iter()
        .any(|a| a == "--allow-fs-read=/opt/deco/host"));
    assert!(
        !spec
            .args
            .iter()
            .any(|a| a.starts_with("--allow-child-process")),
        "the host must not be able to spawn processes directly"
    );
    assert!(!spec.args.iter().any(|a| a.starts_with("--allow-worker")));
    assert!(
        !spec.args.iter().any(|a| a.starts_with("--allow-fs-write")),
        "all writes go through the broker"
    );
}

#[test]
fn code_generation_is_disabled_by_default_and_can_be_re_enabled() {
    let spec = build_spec(&config(), "acme.ext", None);
    assert!(spec
        .args
        .iter()
        .any(|a| a == "--disallow-code-generation-from-strings"));

    let mut config = config();
    config.allow_code_generation = true;
    let spec = build_spec(&config, "acme.ext", None);
    assert!(!spec
        .args
        .iter()
        .any(|a| a == "--disallow-code-generation-from-strings"));
}

#[test]
fn the_permission_model_can_be_turned_off_for_older_node() {
    let mut config = config();
    config.node_permission_model = false;
    let spec = build_spec(&config, "acme.ext", None);
    assert!(!spec.args.iter().any(|a| a == "--permission"));
    // The heap cap is not part of the permission model, so it stays.
    assert!(spec
        .args
        .iter()
        .any(|a| a.starts_with("--max-old-space-size")));
}

#[test]
fn the_bootstrap_is_the_last_argument() {
    let spec = build_spec(&config(), "acme.ext", None);
    assert_eq!(spec.args.last().unwrap(), "/opt/deco/host/bootstrap.js");
}

#[test]
fn the_environment_is_built_from_nothing() {
    let spec = build_spec(&config(), "acme.ext", None);
    let expected: Vec<&str> = vec!["DECO_EXTENSION_ID", "DECO_HOST_PROTOCOL"];
    for (key, _) in &spec.env {
        assert!(
            expected.contains(&key.as_str()),
            "unexpected environment entry {key}"
        );
    }
    assert_eq!(spec.env_value("DECO_EXTENSION_ID"), Some("acme.ext"));
}

#[test]
fn the_system_root_is_passed_on_where_there_is_one() {
    let spec = build_spec(&config(), "acme.ext", Some("C:\\Windows"));
    assert_eq!(spec.env_value("SystemRoot"), Some("C:\\Windows"));
    assert_eq!(spec.env_value("DECO_HOST_PROTOCOL"), Some(PROTOCOL_VERSION));
    assert_eq!(spec.env.len(), 3);
}

#[test]
fn the_environment_carries_no_credentials_from_the_parent() {
    let spec = build_spec(&config(), "acme.ext", None);
    for leaky in [
        "DECO_TEST_FAKE_TOKEN",
        "HOME",
        "PATH",
        "SSH_AUTH_SOCK",
        "AWS_SECRET_ACCESS_KEY",
        "GITHUB_TOKEN",
    ] {
        assert!(
            spec.env_value(leaky).is_none(),
            "{leaky} leaked into the host environment"
        );
    }
    assert!(!spec.env.iter().any(|(_, v)| v.contains("super-secret")));
}

#[test]
fn verify_reports_a_missing_runtime_clearly() {
    let mut config = config();
    config.node = PathBuf::from("/nonexistent/node");
    assert!(matches!(
        verify(&config, false, true),
        Err(HostError::NodeNotFound { .. })
    ));
}

#[test]
fn verify_reports_a_missing_bootstrap_and_nothing_otherwise() {
    let missing = verify(&config(), true, false);
    assert!(matches!(missing, Err(HostError::BootstrapNotFound { .. })));
    assert!(missing
        .unwrap_err()
        .message()
        .contains("/opt/deco/host/bootstrap.js"));
    assert!(verify(&config(), true, true).is_ok());
}

#[test]
fn a_connection_round_trips_messages() {
    let request = Message::Request(Request {
        id: 1,
        method: "fs.readFile".into(),
        params: object(vec![("path", Value::from("/w/a.txt"))]),
    });
    let mut connection = Connection::new(&Vec::new());
    connection.send(&encode(&request));
    let mut connection = Connection::new(&connection.outbound.into_bytes());
    assert_eq!(connection.receive(&decode), Some(request));
    assert_eq!(connection.receive(&decode), None);
}

#[test]
fn stray_output_between_messages_is_skipped() {
    // An extension calling console.log writes to the same stream.
    let mut input = String::new();
    input.push_str("this is not json\n");
    input.push('\n');
    input.push_str(&encode(&Message::Response(Response {
        id: 9,
        result: Some(Value::from("ok")),
        error: None,
    })));

    let mut connection = Connection::new(&input.into_bytes());
    match connection.receive(&decode) {
        Some(Message::Response(response)) => assert_eq!(response.id, 9),
        other => panic!("expected the response to survive, got {other:?}"),
    }
}

#[test]
fn within_any_checks_every_root() {
    let roots = vec![PathBuf::from("/a"), PathBuf::from("/b")];
    assert!(within_any(&PathBuf::from("/a/x"), &roots));
    assert!(within_any(&PathBuf::from("/b/y/z"), &roots));
    assert!(!within_any(&PathBuf::from("/c"), &roots));
    assert!(!within_any(&PathBuf::from("/a/../c"), &roots));
}

#[test]
fn a_program_is_absolute_by_its_first_character() {
    let spec = HostSpec {
        program: PathBuf::from("node"),
        args: Vec::new(),
        env: Vec::new(),
        cwd: PathBuf::from("/tmp"),
    };
    assert!(!spec.program_is_absolute());
    let spec = HostSpec {
        program: PathBuf::from("/usr/bin/node"),
        ..spec
    };
    assert!(spec.program_is_absolute());
}

#[test]
fn a_line_that_is_no_text_is_skipped() {
    let mut input = b"\xff\xfe\n".to_vec();
    input.extend_from_slice(
        b"{\"type\":\"request\",\"id\":7,\"method\":\"log.append\",\"params\":{}}\n",
    );
    let mut connection = Connection::new(&input);
    match connection.receive(&decode) {
        Some(Message::Request(request)) => assert_eq!(request.id, 7),
        other => panic!("expected the request, got {other:?}"),
    }
    assert_eq!(connection.receive(&decode), None);
}

#[test]
fn messages_are_received_in_order_and_then_none() {
    let message = |id: u64| {
        Message::Response(Response { id, result: Some(Value::from("ok")), error: None })
    };
    let mut input = Vec::new();
    for id in 1..4 {
        input.extend_from_slice(encode(&message(id)).as_bytes());
        input.extend_from_slice(b"stray\n\n\xc3\n");
    }
    let mut connection = Connection::new(&input);
    for id in 1..4 {
        assert_eq!(connection.receive(&decode), Some(message(id)));
    }
    assert_eq!(connection.receive(&decode), None);
    assert_eq!(connection.receive(&decode), None);
}
