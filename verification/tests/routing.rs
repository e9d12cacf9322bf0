use lsp_transport::codec::encode_frame;
use lsp_transport::dispatch::method_not_found_body;
use lsp_transport::dispatch::DispatchAction;
use lsp_transport::dispatch::Dispatcher;
use lsp_transport::envelope::classify;
use lsp_transport::envelope::decode_message;
use lsp_transport::envelope::ClassifyError;
use lsp_transport::envelope::DecodeError;
use lsp_transport::envelope::MessageId;
use lsp_transport::envelope::MsgKind;

#[test]
fn classifies_a_request() {
    let body = "{\"jsonrpc\":\"2.0\",\"id\":1,\"method\":\"initialize\",\"params\":{}}";
    let env = classify(body).unwrap();
    assert_eq!(MsgKind::Request, env.kind);
    assert_eq!(Some("initialize".to_string()), env.method);
    assert!(env.has_params);
    match env.id {
        Some(MessageId::Num(n)) => assert_eq!(1, n),
        _ => panic!("expected an integer id"),
    }
}

#[test]
fn classifies_a_notification() {
    let body = "{\"jsonrpc\":\"2.0\",\"method\":\"initialized\"}";
    let env = classify(body).unwrap();
    assert_eq!(MsgKind::Notification, env.kind);
    assert_eq!(Some("initialized".to_string()), env.method);
    assert!(!env.has_params);
    assert!(env.id.is_none());
}

#[test]
fn classifies_a_response() {
    let body = "{\"jsonrpc\":\"2.0\",\"id\":\"seven\",\"result\":{}}";
    let env = classify(body).unwrap();
    assert_eq!(MsgKind::Response, env.kind);
    assert!(env.method.is_none());
    match env.id {
        Some(MessageId::Text(t)) => assert_eq!("seven", t),
        _ => panic!("expected a string id"),
    }
}

#[test]
fn classifying_twice_agrees() {
    let body = "{\"jsonrpc\":\"2.0\",\"id\":4,\"method\":\"shutdown\"}";
    let first = classify(body).unwrap();
    let second = classify(body).unwrap();
    assert_eq!(first.kind, second.kind);
    assert_eq!(first.method, second.method);
    assert_eq!(first.has_params, second.has_params);
    match (first.id, second.id) {
        (Some(a), Some(b)) => assert!(a.matches(&b)),
        _ => panic!("expected ids on both"),
    }
}

#[test]
fn rejects_wrong_version() {
    let body = "{\"jsonrpc\":\"1.0\",\"id\":1,\"method\":\"initialize\"}";
    assert_eq!(Err(ClassifyError::UnsupportedVersion), classify(body).map(|_| ()));
}

#[test]
fn tolerates_missing_version() {
    let body = "{\"method\":\"hi\"}";
    let env = classify(body).unwrap();
    assert_eq!(MsgKind::Notification, env.kind);
}

#[test]
fn rejects_non_object_bodies() {
    assert_eq!(Err(ClassifyError::MalformedJson), classify("[1,2,3]").map(|_| ()));
    assert_eq!(Err(ClassifyError::MalformedJson), classify("not json").map(|_| ()));
}

#[test]
fn rejects_bodies_with_neither_method_nor_id() {
    assert_eq!(Err(ClassifyError::MalformedJson), classify("{\"params\":{}}").map(|_| ()));
}

#[test]
fn null_id_counts_as_present() {
    let body = "{\"jsonrpc\":\"2.0\",\"id\":null,\"result\":1}";
    let env = classify(body).unwrap();
    assert_eq!(MsgKind::Response, env.kind);
    match env.id {
        Some(MessageId::Other) => {},
        _ => panic!("expected an id of another JSON shape"),
    }
}

#[test]
fn decode_of_a_response_has_no_method() {
    let body = "{\"jsonrpc\":\"2.0\",\"id\":1,\"result\":4}";
    let framed = encode_frame(body);
    assert_eq!(Err(DecodeError::MissingMethod), decode_message(framed).map(|_| ()));
}

#[test]
fn unknown_request_gets_method_not_found() {
    let body = "{\"jsonrpc\":\"2.0\",\"id\":1,\"method\":\"initialize\",\"params\":{}}";
    let env = classify(body).unwrap();
    let mut dispatcher = Dispatcher::new();
    let action = dispatcher.dispatch(&env);
    assert_eq!(DispatchAction::RespondMethodNotFound, action);

    let response = method_not_found_body(&env.id);
    let expected =
        "{\"jsonrpc\":\"2.0\",\"id\":1,\"error\":{\"code\":-32601,\"message\":\"Method not found\"}}";
    assert_eq!(expected, response);

    let framed = encode_frame(&response);
    let expected_frame = format!("Content-Length: {}\r\n\r\n{}", expected.len(), expected);
    assert_eq!(expected_frame, framed);
}

#[test]
fn registered_request_is_invoked() {
    let body = "{\"jsonrpc\":\"2.0\",\"id\":1,\"method\":\"initialize\",\"params\":{}}";
    let env = classify(body).unwrap();
    let mut dispatcher = Dispatcher::new();
    dispatcher.register("initialize".to_string());
    assert_eq!(DispatchAction::Invoke, dispatcher.dispatch(&env));
}

#[test]
fn unknown_notification_is_ignored() {
    let body = "{\"jsonrpc\":\"2.0\",\"method\":\"initialized\"}";
    let env = classify(body).unwrap();
    let mut dispatcher = Dispatcher::new();
    assert_eq!(DispatchAction::Ignore, dispatcher.dispatch(&env));
}

#[test]
fn response_completes_a_pending_request() {
    let body = "{\"jsonrpc\":\"2.0\",\"id\":7,\"result\":{}}";
    let env = classify(body).unwrap();
    let mut dispatcher = Dispatcher::new();
    dispatcher.add_pending(MessageId::Num(7));
    assert_eq!(DispatchAction::CompletePending, dispatcher.dispatch(&env));
    // A second identical response no longer matches anything.
    let env = classify(body).unwrap();
    assert_eq!(DispatchAction::DropResponse, dispatcher.dispatch(&env));
}

#[test]
fn unmatched_response_is_dropped() {
    let body = "{\"jsonrpc\":\"2.0\",\"id\":9,\"result\":{}}";
    let env = classify(body).unwrap();
    let mut dispatcher = Dispatcher::new();
    dispatcher.add_pending(MessageId::Num(7));
    assert_eq!(DispatchAction::DropResponse, dispatcher.dispatch(&env));
}

#[test]
fn string_ids_are_escaped_in_error_responses() {
    let id = Some(MessageId::Text("a\"b\\c\n".to_string()));
    let response = method_not_found_body(&id);
    let expected = "{\"jsonrpc\":\"2.0\",\"id\":\"a\\\"b\\\\c\\u000a\",\"error\":{\"code\":-32601,\"message\":\"Method not found\"}}";
    assert_eq!(expected, response);
    // What was emitted is valid JSON and decodes back to the raw id.
    let parsed: serde_json::Value = serde_json::from_str(&response).unwrap();
    assert_eq!(Some("a\"b\\c\n"), parsed.get("id").and_then(|v| v.as_str()));
}

#[test]
fn absent_id_is_echoed_as_null() {
    let response = method_not_found_body(&None);
    let expected =
        "{\"jsonrpc\":\"2.0\",\"id\":null,\"error\":{\"code\":-32601,\"message\":\"Method not found\"}}";
    assert_eq!(expected, response);
}
