use cdp_client::client::{DebugClient, Error, discovery_url, decode_enum_value, params_object};
use cdp_client::json::{Json, to_text};

fn foo_bar_tags() -> Vec<String> {
    vec!["Foo.baz".to_string()]
}

#[test]
fn fresh_client_starts_at_id_one() {
    let c = DebugClient::new();
    assert_eq!(c.id, 1);
    assert!(c.pending_events.is_empty());
    assert!(c.pending_responses.is_empty());
}

#[test]
fn request_ids_are_monotonic_and_unique() {
    let mut c = DebugClient::new();
    let (id1, _) = c.next_request("Foo.bar", &Json::Obj(vec![]));
    let (id2, _) = c.next_request("Foo.bar", &Json::Obj(vec![]));
    let (id3, _) = c.next_request("Other.cmd", &Json::Obj(vec![]));
    assert_eq!((id1, id2, id3), (1, 2, 3));
}

#[test]
fn optional_param_unset_serializes_empty_object() {
    // Command with one optional parameter `x`, left unset.
    let mut c = DebugClient::new();
    let params = params_object(vec![("x".to_string(), None)]);
    let (id, wire) = c.next_request("Foo.bar", &params);
    assert_eq!(id, 1);
    assert_eq!(wire, "{\"id\":1,\"method\":\"Foo.bar\",\"params\":{}}");
}

#[test]
fn optional_param_set_serializes_under_wire_name() {
    let mut c = DebugClient::new();
    let params = params_object(vec![("x".to_string(), Some(Json::Int(5)))]);
    let (id, wire) = c.next_request("Foo.bar", &params);
    assert_eq!(id, 1);
    assert_eq!(wire, "{\"id\":1,\"method\":\"Foo.bar\",\"params\":{\"x\":5}}");
}

#[test]
fn empty_result_completes_as_no_data() {
    let mut c = DebugClient::new();
    let params = params_object(vec![("x".to_string(), None)]);
    let (id, _) = c.next_request("Foo.bar", &params);
    let resp = Json::Obj(vec![
        ("id".to_string(), Json::Int(1)),
        ("result".to_string(), Json::Obj(vec![])),
    ]);
    c.accept_message(resp, &foo_bar_tags()).unwrap();
    let r = c.take_response(id).expect("response with id 1 must be buffered");
    assert_eq!(r.id, 1);
    match DebugClient::complete(r) {
        Ok(v) => assert_eq!(v, Json::Obj(vec![])),
        Err(_) => panic!("an empty result object is success carrying no data"),
    }
}

#[test]
fn out_of_order_responses_correlate_by_id() {
    // Two requests back to back; the wire answers with an event, then the
    // response to id 2, then the response to id 1.
    let mut c = DebugClient::new();
    let (id1, _) = c.next_request("Foo.bar", &Json::Obj(vec![]));
    let (id2, _) = c.next_request("Foo.bar", &Json::Obj(vec![]));
    let tags = foo_bar_tags();
    c.accept_message(
        Json::Obj(vec![("method".to_string(), Json::Str("Foo.baz".to_string()))]),
        &tags,
    )
    .unwrap();
    c.accept_message(
        Json::Obj(vec![
            ("id".to_string(), Json::Int(2)),
            ("result".to_string(), Json::Obj(vec![])),
        ]),
        &tags,
    )
    .unwrap();
    c.accept_message(
        Json::Obj(vec![
            ("id".to_string(), Json::Int(1)),
            (
                "result".to_string(),
                Json::Obj(vec![("a".to_string(), Json::Int(7))]),
            ),
        ]),
        &tags,
    )
    .unwrap();
    let r1 = c.take_response(id1).expect("id 1 must be claimable");
    assert_eq!(r1.id, 1);
    assert_eq!(
        r1.result,
        Some(Json::Obj(vec![("a".to_string(), Json::Int(7))]))
    );
    let r2 = c.take_response(id2).expect("id 2 must be claimable");
    assert_eq!(r2.id, 2);
    // The buffered event is still there, in arrival order.
    assert_eq!(c.pending_events.len(), 1);
    assert_eq!(c.pending_events[0].method, "Foo.baz");
    // Nothing else is claimable.
    assert!(c.take_response(3).is_none());
}

#[test]
fn event_without_params_is_accepted_with_and_without_payload() {
    let tags = foo_bar_tags();
    let mut c = DebugClient::new();
    // No params member at all.
    c.accept_message(
        Json::Obj(vec![("method".to_string(), Json::Str("Foo.baz".to_string()))]),
        &tags,
    )
    .unwrap();
    // An empty params object.
    c.accept_message(
        Json::Obj(vec![
            ("method".to_string(), Json::Str("Foo.baz".to_string())),
            ("params".to_string(), Json::Obj(vec![])),
        ]),
        &tags,
    )
    .unwrap();
    assert_eq!(c.pending_events.len(), 2);
    assert_eq!(c.pending_events[0].params, None);
    assert_eq!(c.pending_events[1].params, Some(Json::Obj(vec![])));
}

#[test]
fn unknown_event_tag_fails_decoding() {
    let tags = foo_bar_tags();
    let mut c = DebugClient::new();
    let r = c.accept_message(
        Json::Obj(vec![(
            "method".to_string(),
            Json::Str("Foo.unheard".to_string()),
        )]),
        &tags,
    );
    assert!(matches!(r, Err(Error::Decode(_))));
    assert!(c.pending_events.is_empty());
}

#[test]
fn non_object_wire_message_fails_decoding() {
    let mut c = DebugClient::new();
    let r = c.accept_message(Json::Int(3), &foo_bar_tags());
    assert!(matches!(r, Err(Error::Decode(_))));
}

#[test]
fn negative_response_id_fails_decoding() {
    let mut c = DebugClient::new();
    let r = c.accept_message(
        Json::Obj(vec![("id".to_string(), Json::Int(-1))]),
        &foo_bar_tags(),
    );
    assert!(matches!(r, Err(Error::Decode(_))));
}

#[test]
fn server_error_object_surfaces_as_call_error() {
    let mut c = DebugClient::new();
    let (id, _) = c.next_request("Foo.bar", &Json::Obj(vec![]));
    c.accept_message(
        Json::Obj(vec![
            ("id".to_string(), Json::Int(1)),
            (
                "error".to_string(),
                Json::Obj(vec![
                    ("code".to_string(), Json::Int(-32000)),
                    ("message".to_string(), Json::Str("nope".to_string())),
                ]),
            ),
        ]),
        &foo_bar_tags(),
    )
    .unwrap();
    let r = c.take_response(id).unwrap();
    match DebugClient::complete(r) {
        Err(Error::CallError(Some(info))) => {
            assert_eq!(info.code, -32000);
            assert_eq!(info.message, "nope");
            assert_eq!(info.data, None);
        },
        _ => panic!("a response without a result is a call error"),
    }
}

#[test]
fn malformed_error_object_fails_decoding() {
    let mut c = DebugClient::new();
    let r = c.accept_message(
        Json::Obj(vec![
            ("id".to_string(), Json::Int(1)),
            (
                "error".to_string(),
                Json::Obj(vec![("message".to_string(), Json::Str("nope".to_string()))]),
            ),
        ]),
        &foo_bar_tags(),
    );
    assert!(matches!(r, Err(Error::Decode(_))));
}

#[test]
fn enum_wire_value_decodes_to_declared_variant() {
    let variants = vec!["top-level".to_string(), "other".to_string()];
    assert_eq!(decode_enum_value(&variants, "top-level").unwrap(), 0);
    assert_eq!(decode_enum_value(&variants, "other").unwrap(), 1);
}

#[test]
fn undeclared_enum_wire_value_fails_decoding() {
    let variants = vec!["top-level".to_string(), "other".to_string()];
    assert!(matches!(
        decode_enum_value(&variants, "brand-new"),
        Err(Error::Decode(_))
    ));
}

#[test]
fn discovery_extracts_first_target_endpoint() {
    let payload = Json::Arr(vec![
        Json::Obj(vec![(
            "webSocketDebuggerUrl".to_string(),
            Json::Str("ws://localhost:9222/devtools/page/1".to_string()),
        )]),
        Json::Obj(vec![]),
    ]);
    assert_eq!(
        discovery_url(&payload).unwrap(),
        "ws://localhost:9222/devtools/page/1"
    );
}

#[test]
fn discovery_rejects_empty_or_malformed_payloads() {
    assert!(discovery_url(&Json::Arr(vec![])).is_err());
    assert!(discovery_url(&Json::Obj(vec![])).is_err());
    assert!(discovery_url(&Json::Arr(vec![Json::Obj(vec![])])).is_err());
    assert!(discovery_url(&Json::Arr(vec![Json::Obj(vec![(
        "webSocketDebuggerUrl".to_string(),
        Json::Int(9)
    )])]))
    .is_err());
}

#[test]
fn params_object_keeps_present_values_in_order() {
    let p = params_object(vec![
        ("a".to_string(), Some(Json::Int(1))),
        ("b".to_string(), None),
        ("c".to_string(), Some(Json::Str("x".to_string()))),
    ]);
    assert_eq!(to_text(&p), "{\"a\":1,\"c\":\"x\"}");
}

#[test]
fn correlation_holds_for_every_delivery_order() {
    // Three buffered messages — an event and two responses — delivered in
    // every possible order; each claim still yields its own id.
    let tags = foo_bar_tags();
    let orders: Vec<Vec<u8>> = vec![
        vec![0, 1, 2],
        vec![0, 2, 1],
        vec![1, 0, 2],
        vec![1, 2, 0],
        vec![2, 0, 1],
        vec![2, 1, 0],
    ];
    for order in orders {
        let mut c = DebugClient::new();
        let (id1, _) = c.next_request("Foo.bar", &Json::Obj(vec![]));
        let (id2, _) = c.next_request("Foo.bar", &Json::Obj(vec![]));
        for slot in &order {
            let msg = match slot {
                0 => Json::Obj(vec![("method".to_string(), Json::Str("Foo.baz".to_string()))]),
                1 => Json::Obj(vec![
                    ("id".to_string(), Json::Int(1)),
                    ("result".to_string(), Json::Int(10)),
                ]),
                _ => Json::Obj(vec![
                    ("id".to_string(), Json::Int(2)),
                    ("result".to_string(), Json::Int(20)),
                ]),
            };
            c.accept_message(msg, &tags).unwrap();
        }
        let r1 = c.take_response(id1).unwrap();
        assert_eq!(r1.id, 1);
        assert_eq!(r1.result, Some(Json::Int(10)));
        let r2 = c.take_response(id2).unwrap();
        assert_eq!(r2.id, 2);
        assert_eq!(r2.result, Some(Json::Int(20)));
        assert_eq!(c.pending_events.len(), 1);
    }
}
