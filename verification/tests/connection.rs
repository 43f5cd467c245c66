use deco::capability::{
    Broker, Capability, Decision, DefaultPolicy, GrantStore, PathScope, ResolutionContext,
};
use deco::connection::{
    agrees_on_protocol, check_program, dispatch, line_event, protocol_agrees, pump_lines,
    pump_messages, ready_step, shutdown_step, Dispatch, ErrorLog, Exit, HostEvent, ReadyError,
    Requests, SpawnError, Stopping, Waiting, ERROR_LOG_LINES,
};
use deco::host::{HostSpec, PROTOCOL_VERSION};
use deco::path::PathBuf;
use deco::protocol::{ErrorCode, Message, Notification, Request};
use serde_json::Value;

fn object(pairs: Vec<(&str, &str)>) -> Value {
    Value::Object(
        pairs
            .into_iter()
            .map(|(key, value)| (key.to_owned(), Value::from(value)))
            .collect(),
    )
}

/// One line as a message.
fn decode(line: &String) -> Result<Message, String> {
    let value: Value = serde_json::from_str(line).map_err(|error| error.to_string())?;
    let method = value["method"].as_str().ok_or("no method")?.to_owned();
    let params = value["params"].clone();
    match value["type"].as_str() {
        Some("request") => Ok(Message::Request(Request {
            id: value["id"].as_u64().ok_or("no id")?,
            method,
            params,
        })),
        Some("notification") => Ok(Message::Notification(Notification { method, params })),
        _ => Err("no type".to_owned()),
    }
}

fn events(input: &str) -> Vec<HostEvent> {
    pump_messages(&input.as_bytes().to_vec(), &decode)
}

/// The capabilities that a method needs; none where nothing answers to it.
fn needed(request: &Request) -> Option<Vec<Capability>> {
    let path = |key: &str| PathScope::Subtree {
        path: PathBuf::from(request.params[key].as_str().unwrap_or("")),
    };
    match request.method.as_str() {
        "fs.readFile" => Some(vec![Capability::ReadFile {
            scope: path("path"),
        }]),
        "fs.rename" => Some(vec![
            Capability::WriteFile {
                scope: path("target"),
            },
            Capability::WriteFile {
                scope: path("source"),
            },
        ]),
        "fs.copy" => Some(vec![
            Capability::WriteFile {
                scope: path("target"),
            },
            Capability::ReadFile {
                scope: path("source"),
            },
        ]),
        "commands.registerCommand"
        | "window.showInformationMessage"
        | "log.append"
        | "$/ready" => Some(Vec::new()),
        _ => None,
    }
}

fn ask(broker: &Broker, request: &Request) -> Dispatch {
    dispatch(broker, request, &needed(request))
}

fn ready_line() -> String {
    format!(
        r#"{{"type":"notification","method":"$/ready","params":{{"protocol":"{PROTOCOL_VERSION}"}}}}"#
    )
}

#[test]
fn one_message_per_line_is_read_in_order() {
    let input = format!(
        "{}\n{}\n",
        ready_line(),
        r#"{"type":"request","id":7,"method":"log.append","params":{}}"#
    );
    let seen = events(&input);
    assert_eq!(seen.len(), 3, "{seen:?}");
    assert!(matches!(
        &seen[0],
        HostEvent::Message(Message::Notification(n)) if n.method == "$/ready"
    ));
    assert!(matches!(
        &seen[1],
        HostEvent::Message(Message::Request(r)) if r.id == 7
    ));
    assert_eq!(seen[2], HostEvent::Closed, "the stream ended");
}

#[test]
fn a_blank_line_is_not_a_message() {
    let seen = events(&format!("\n\n{}\n", ready_line()));
    assert_eq!(seen.len(), 2, "{seen:?}");
}

#[test]
fn one_unreadable_line_costs_one_message_and_not_the_stream() {
    // This is why the framing uses newlines instead of length prefixes: the next
    // message starts at a known position.
    let seen = events(&format!("{{ not json\n{}\n", ready_line()));
    assert!(matches!(seen[0], HostEvent::Garbled(_)), "{seen:?}");
    assert!(
        matches!(
            &seen[1],
            HostEvent::Message(Message::Notification(n)) if n.method == "$/ready"
        ),
        "the reader carried on: {seen:?}"
    );
}

#[test]
fn the_stream_ending_is_reported_once() {
    assert_eq!(events(""), vec![HostEvent::Closed]);
}

#[test]
fn the_error_log_keeps_the_last_lines_not_the_first() {
    // When a process exits, the reason is usually at the end.
    let mut log = ErrorLog::default();
    let mut input = String::new();
    for i in 0..(ERROR_LOG_LINES + 5) {
        input.push_str(&format!("line {i}\n"));
    }
    pump_lines(&input.into_bytes(), &mut log);
    let joined = log.joined();
    assert!(joined.contains(&format!("line {}", ERROR_LOG_LINES + 4)));
    assert!(!joined.contains("line 0"), "the oldest was dropped");
    assert_eq!(joined.lines().count(), ERROR_LOG_LINES);
}

#[test]
fn invalid_utf8_on_stderr_is_replaced_rather_than_fatal() {
    let mut log = ErrorLog::default();
    pump_lines(&b"bad \xff byte\nand more\n".to_vec(), &mut log);
    let joined = log.joined();
    assert_eq!(joined.lines().count(), 2, "{joined:?}");
}

// ---- The capability seam ----------------------------------------------

fn broker(declared: Vec<Capability>, policy: DefaultPolicy) -> Broker {
    Broker::new(
        declared,
        GrantStore::default(),
        policy,
        ResolutionContext {
            workspace_roots: vec![PathBuf::from("/w")],
            ..Default::default()
        },
    )
}

fn request(method: &str, params: Value) -> Request {
    Request {
        id: 1,
        method: method.to_owned(),
        params,
    }
}

#[test]
fn a_method_deco_does_not_know_is_refused() {
    // Rejected by name alone: a host from a newer deco cannot reach an older
    // deco's editor surface through a method the older version does not know.
    let broker = broker(Vec::new(), DefaultPolicy::Allow);
    let refusal = ask(&broker, &request("fs.deleteEverything", Value::Null));
    match refusal {
        Dispatch::Refused(response) => {
            let error = response.error.expect("a refusal carries one");
            assert_eq!(error.code, ErrorCode::MethodNotFound);
            assert!(error.message.contains("fs.deleteEverything"), "{error:?}");
        }
        other => panic!("should have been refused: {other:?}"),
    }
}

#[test]
fn a_mediated_method_needs_no_capability_at_all() {
    // These only affect state that deco owns and shows to the user, so an
    // extension that declared nothing can still register a command.
    let broker = broker(Vec::new(), DefaultPolicy::Deny);
    for method in [
        "commands.registerCommand",
        "window.showInformationMessage",
        "log.append",
        "$/ready",
    ] {
        assert_eq!(
            ask(&broker, &request(method, Value::Null)),
            Dispatch::Allowed,
            "{method}"
        );
    }
}

#[test]
fn a_capability_the_manifest_never_declared_is_refused() {
    // The declaration is an upper bound. Regardless of later user grants, an
    // extension cannot exceed what its manifest declares.
    let broker = broker(Vec::new(), DefaultPolicy::Allow);
    let params = object(vec![("path", "/w/src/main.rs")]);
    match ask(&broker, &request("fs.readFile", params)) {
        Dispatch::Refused(response) => {
            assert_eq!(
                response.error.expect("a refusal carries one").code,
                ErrorCode::PermissionDenied
            );
        }
        other => panic!("should have been refused: {other:?}"),
    }
}

#[test]
fn a_declared_capability_is_allowed_within_its_scope() {
    let broker = broker(
        vec![Capability::ReadFile {
            scope: PathScope::Workspace,
        }],
        DefaultPolicy::Allow,
    );
    assert_eq!(
        ask(
            &broker,
            &request(
                "fs.readFile",
                object(vec![("path", "/w/src/main.rs")])
            )
        ),
        Dispatch::Allowed
    );
}

#[test]
fn a_declared_capability_outside_its_scope_is_still_refused() {
    // An SSH key, reached through `..` from inside the workspace.
    let broker = broker(
        vec![Capability::ReadFile {
            scope: PathScope::Workspace,
        }],
        DefaultPolicy::Allow,
    );
    assert!(matches!(
        ask(
            &broker,
            &request(
                "fs.readFile",
                object(vec![("path", "/w/../.ssh/id_ed25519")])
            )
        ),
        Dispatch::Refused(_)
    ));
}

#[test]
fn a_policy_of_prompt_produces_a_question_rather_than_an_answer() {
    let broker = broker(
        vec![Capability::ReadFile {
            scope: PathScope::Workspace,
        }],
        DefaultPolicy::Prompt,
    );
    assert!(matches!(
        ask(
            &broker,
            &request("fs.readFile", object(vec![("path", "/w/a.rs")]))
        ),
        Dispatch::Consent { .. }
    ));
}

// ---- Requests that touch two paths -------------------------------------

fn subtree(path: &str) -> PathScope {
    PathScope::Subtree { path: PathBuf::from(path) }
}

/// Writes under `/w/allowed`, reads under `/w/readonly`, and nothing else.
fn two_scopes(policy: DefaultPolicy) -> Broker {
    broker(
        vec![
            Capability::WriteFile {
                scope: subtree("/w/allowed"),
            },
            Capability::ReadFile {
                scope: subtree("/w/readonly"),
            },
        ],
        policy,
    )
}

fn transfer(method: &str, source: &str, target: &str) -> Request {
    request(
        method,
        object(vec![("source", source), ("target", target)]),
    )
}

fn refused_for_permission(dispatched: Dispatch) {
    match dispatched {
        Dispatch::Refused(response) => assert_eq!(
            response.error.expect("a refusal carries one").code,
            ErrorCode::PermissionDenied
        ),
        other => panic!("should have been refused: {other:?}"),
    }
}

#[test]
fn a_rename_out_of_an_undeclared_source_is_refused() {
    // The target is covered. Checking only the target would let an extension
    // move a key into its own directory and read it there.
    let broker = two_scopes(DefaultPolicy::Allow);
    refused_for_permission(ask(
        &broker,
        &transfer("fs.rename", "/home/u/.ssh/id_ed25519", "/w/allowed/x"),
    ));
}

#[test]
fn a_rename_source_that_climbs_out_with_dots_is_refused() {
    let broker = two_scopes(DefaultPolicy::Allow);
    refused_for_permission(ask(
        &broker,
        &transfer(
            "fs.rename",
            "/w/allowed/../../home/u/.ssh/id",
            "/w/allowed/x",
        ),
    ));
}

#[test]
fn a_rename_within_the_writable_scope_is_allowed() {
    let broker = two_scopes(DefaultPolicy::Allow);
    assert_eq!(
        ask(
            &broker,
            &transfer("fs.rename", "/w/allowed/a", "/w/allowed/b")
        ),
        Dispatch::Allowed
    );
}

#[test]
fn a_rename_out_of_a_read_only_scope_is_refused() {
    // Moving a file out of a directory changes that directory.
    let broker = two_scopes(DefaultPolicy::Allow);
    refused_for_permission(ask(
        &broker,
        &transfer("fs.rename", "/w/readonly/a", "/w/allowed/a"),
    ));
}

#[test]
fn a_copy_needs_only_to_read_its_source() {
    let broker = two_scopes(DefaultPolicy::Allow);
    assert_eq!(
        ask(
            &broker,
            &transfer("fs.copy", "/w/readonly/a", "/w/allowed/a")
        ),
        Dispatch::Allowed
    );
}

#[test]
fn a_copy_from_an_undeclared_source_is_refused() {
    let broker = two_scopes(DefaultPolicy::Allow);
    refused_for_permission(ask(
        &broker,
        &transfer("fs.copy", "/home/u/.ssh/id_ed25519", "/w/allowed/x"),
    ));
}

#[test]
fn a_copy_into_a_read_only_scope_is_refused() {
    let broker = two_scopes(DefaultPolicy::Allow);
    refused_for_permission(ask(
        &broker,
        &transfer("fs.copy", "/w/allowed/a", "/w/readonly/a"),
    ));
}

#[test]
fn consent_is_asked_for_one_path_at_a_time_target_first() {
    // The consent prompt holds one question. After the first answer, the
    // request asks about the path that is still undecided.
    let mut broker = two_scopes(DefaultPolicy::Prompt);
    let rename = transfer("fs.rename", "/w/allowed/a", "/w/allowed/b");
    let target = Capability::WriteFile {
        scope: subtree("/w/allowed/b"),
    };
    let source = Capability::WriteFile {
        scope: subtree("/w/allowed/a"),
    };
    assert_eq!(
        ask(&broker, &rename),
        Dispatch::Consent {
            capability: target.clone()
        }
    );
    broker.remember(target, Decision::Allow);
    assert_eq!(
        ask(&broker, &rename),
        Dispatch::Consent {
            capability: source.clone()
        }
    );
    broker.remember(source, Decision::Allow);
    assert_eq!(ask(&broker, &rename), Dispatch::Allowed);
}

#[test]
fn a_denied_source_refuses_without_asking_about_the_target() {
    // Asking about the target would be pointless: the request would be refused
    // whatever the answer.
    let broker = two_scopes(DefaultPolicy::Prompt);
    refused_for_permission(ask(
        &broker,
        &transfer("fs.rename", "/home/u/.ssh/id_ed25519", "/w/allowed/x"),
    ));
}

// ---- Starting a process ------------------------------------------------

#[test]
fn a_program_named_rather_than_located_is_refused_with_the_reason() {
    // Found in practice. The environment is built from scratch, so there is no
    // `PATH`, and a bare `node` fails as "no such file". That message suggests a
    // missing file instead of a missing directory in the path.
    let spec = HostSpec {
        program: PathBuf::from("node"),
        args: Vec::new(),
        env: Vec::new(),
        cwd: PathBuf::from("/tmp"),
    };
    match check_program(&spec) {
        Err(error @ SpawnError::NotAbsolute { .. }) => {
            let said = error.message();
            assert!(said.contains("absolute"), "{said}");
            assert!(said.contains("PATH"), "{said}");
        }
        Err(other) => panic!("{} instead of a named refusal", other.message()),
        Ok(_) => panic!("a bare program name should not have started"),
    }
}

#[test]
fn a_ready_with_the_wrong_protocol_is_refused() {
    // The Node side checks first, so this is reached only when the two sides'
    // checks disagree. Rejecting is safer than using a mismatched protocol.
    let ready = |protocol: &str| Notification {
        method: "$/ready".to_owned(),
        params: object(vec![("protocol", protocol)]),
    };
    assert_eq!(
        agrees_on_protocol(&ready("0.0.0-ancient")),
        Err(ReadyError::Protocol {
            host: "0.0.0-ancient".to_owned()
        })
    );
    assert_eq!(agrees_on_protocol(&ready(PROTOCOL_VERSION)), Ok(()));
}

#[test]
fn a_ready_that_names_no_protocol_at_all_is_refused() {
    // A missing version does not mean the current one. deco cannot confirm
    // agreement with a host that reports no version.
    assert!(agrees_on_protocol(&Notification {
        method: "$/ready".to_owned(),
        params: Value::Null,
    })
    .is_err());
}

#[test]
fn every_error_says_what_to_do_about_it() {
    // These reach the user through the problem list, so they must be sentences,
    // not variant names.
    assert!(ReadyError::TimedOut { after_ms: 10_000 }
        .message()
        .contains("10000 ms"));
    assert!(ReadyError::Closed.message().contains("exited"));
    assert!(ReadyError::Protocol {
        host: "9.9.9".to_owned()
    }
    .message()
    .contains(PROTOCOL_VERSION));
}

#[test]
fn a_line_is_read_without_its_carriage_return() {
    let seen = events(&format!("{}\r\n", ready_line()));
    assert!(matches!(seen[0], HostEvent::Message(_)), "{seen:?}");
    assert_eq!(line_event(&b"   \r\n".to_vec(), &decode), None);
}

#[test]
fn lost_bytes_are_replaced_in_the_log() {
    let mut log = ErrorLog::default();
    pump_lines(&b"bad \xff byte\n".to_vec(), &mut log);
    assert_eq!(log.joined(), "bad \u{fffd} byte");
    assert!(!log.is_empty());
}

#[test]
fn requests_are_numbered_and_answered_once() {
    let mut requests = Requests::default();
    let first = requests.activate("/ext/a", "./main.js");
    let second = requests.execute_command("a.run", Value::from(7));
    assert_eq!((first.id, second.id), (1, 2));
    assert_eq!(first.method, "$/activate");
    assert_eq!(first.params["extensionPath"].as_str(), Some("/ext/a"));
    assert_eq!(first.params["main"].as_str(), Some("./main.js"));
    assert_eq!(second.method, "$/executeCommand");
    assert_eq!(second.params["command"].as_str(), Some("a.run"));
    assert_eq!(second.params["args"].as_u64(), Some(7));
    assert_eq!(requests.pending(), 2);
    assert_eq!(requests.answered(1).as_deref(), Some("$/activate"));
    assert_eq!(requests.answered(1), None);
    assert_eq!(requests.pending(), 1);
}

#[test]
fn waiting_for_a_host_keeps_what_arrives_first() {
    let mut seen = Vec::new();
    let garbled = HostEvent::Garbled("noise".to_owned());
    assert_eq!(
        ready_step(Some(garbled), false, 10, &mut seen),
        Waiting::Kept
    );
    assert_eq!(ready_step(None, false, 10, &mut seen), Waiting::Sleep);
    let ready = HostEvent::Message(Message::Notification(Notification {
        method: "$/ready".to_owned(),
        params: object(vec![("protocol", PROTOCOL_VERSION)]),
    }));
    assert_eq!(
        ready_step(Some(ready), false, 10, &mut seen),
        Waiting::Finished(Ok(()))
    );
    assert_eq!(seen.len(), 1);
    assert_eq!(
        ready_step(None, true, 10, &mut seen),
        Waiting::Finished(Err(ReadyError::TimedOut { after_ms: 10 }))
    );
    assert_eq!(
        ready_step(Some(HostEvent::Closed), false, 10, &mut seen),
        Waiting::Finished(Err(ReadyError::Closed))
    );
}

#[test]
fn a_host_that_does_not_stop_is_killed() {
    assert_eq!(shutdown_step(Exit::Exited, false), Stopping::Done);
    assert_eq!(shutdown_step(Exit::Running, false), Stopping::Sleep);
    assert_eq!(shutdown_step(Exit::Running, true), Stopping::Kill);
    assert_eq!(protocol_agrees(Some(PROTOCOL_VERSION.to_owned())), Ok(()));
    assert!(protocol_agrees(None).is_err());
}

#[test]
fn a_line_that_is_no_text_loses_one_message() {
    let mut input = b"\xff\n".to_vec();
    input.extend_from_slice(
        b"{\"type\":\"request\",\"id\":7,\"method\":\"log.append\",\"params\":{}}\n",
    );
    let seen = pump_messages(&input, &decode);
    assert_eq!(seen.len(), 3);
    assert!(matches!(seen[0], HostEvent::Garbled(_)), "{seen:?}");
    match &seen[1] {
        HostEvent::Message(Message::Request(request)) => assert_eq!(request.id, 7),
        other => panic!("expected the request, got {other:?}"),
    }
    assert_eq!(seen[2], HostEvent::Closed);
    assert!(matches!(line_event(&b"\xff\n".to_vec(), &decode), Some(HostEvent::Garbled(_))));
}
