use switchboard_signal::json::Json;
use switchboard_signal::message::{
    decode, encode, message_from_json, message_to_json, BridgeError, Message, Notification,
    Request, Response,
};

fn params_with_number(key: &str, n: u64) -> Vec<(String, Json)> {
    vec![(key.to_string(), Json::Number(serde_json::Number::from(n)))]
}

fn number_of(j: &Json) -> Option<u64> {
    match j {
        Json::Number(n) => n.as_u64(),
        _ => None,
    }
}

#[test]
fn encode_request_exact_text() {
    let m = Message::Request(Request {
        id: "1".to_string(),
        method: "join".to_string(),
        params: params_with_number("a", 1),
    });
    assert_eq!(encode(m), "{\"id\":\"1\",\"method\":\"join\",\"params\":{\"a\":1}}");
}

#[test]
fn encode_notification_exact_text() {
    let m = Message::Notification(Notification::new("ping".to_string(), vec![]));
    assert_eq!(encode(m), "{\"method\":\"ping\",\"params\":{}}");
}

#[test]
fn encode_response_omits_absent_error() {
    let m = Message::Response(Response {
        id: "7".to_string(),
        method: "join".to_string(),
        result: Some(params_with_number("ok", 1)),
        error: None,
    });
    assert_eq!(encode(m), "{\"id\":\"7\",\"method\":\"join\",\"result\":{\"ok\":1}}");
}

#[test]
fn encode_response_omits_absent_result() {
    let m = Message::Response(Response {
        id: "7".to_string(),
        method: "join".to_string(),
        result: None,
        error: Some(Json::Str("denied".to_string())),
    });
    assert_eq!(encode(m), "{\"error\":\"denied\",\"id\":\"7\",\"method\":\"join\"}");
}

#[test]
fn encode_disconnected_is_null() {
    assert_eq!(encode(Message::Disconnected), "null");
}

#[test]
fn round_trip_request() {
    let text = encode(Message::Request(Request {
        id: "abc".to_string(),
        method: "offer".to_string(),
        params: params_with_number("sdp", 42),
    }));
    match decode(&text) {
        Ok(Message::Request(r)) => {
            assert_eq!(r.id, "abc");
            assert_eq!(r.method, "offer");
            assert_eq!(r.params.len(), 1);
            assert_eq!(r.params[0].0, "sdp");
            assert_eq!(number_of(&r.params[0].1), Some(42));
        }
        other => panic!("unexpected {:?}", other),
    }
}

#[test]
fn round_trip_response_with_result_only() {
    let text = encode(Message::Response(Response {
        id: "9".to_string(),
        method: "join".to_string(),
        result: Some(params_with_number("n", 3)),
        error: None,
    }));
    match decode(&text) {
        Ok(Message::Response(r)) => {
            assert_eq!(r.id, "9");
            assert_eq!(r.method, "join");
            let result = r.result.expect("result kept");
            assert_eq!(result[0].0, "n");
            assert_eq!(number_of(&result[0].1), Some(3));
            assert!(r.error.is_none());
        }
        other => panic!("unexpected {:?}", other),
    }
}

#[test]
fn round_trip_response_with_error_only() {
    let text = encode(Message::Response(Response {
        id: "9".to_string(),
        method: "join".to_string(),
        result: None,
        error: Some(Json::Str("boom".to_string())),
    }));
    match decode(&text) {
        Ok(Message::Response(r)) => {
            assert!(r.result.is_none());
            assert!(matches!(r.error, Some(Json::Str(ref s)) if s == "boom"));
        }
        other => panic!("unexpected {:?}", other),
    }
}

#[test]
fn round_trip_notification() {
    let text = encode(Message::Notification(Notification::new(
        "trickle".to_string(),
        vec![("candidate".to_string(), Json::Str("x".to_string()))],
    )));
    match decode(&text) {
        Ok(Message::Notification(n)) => {
            assert_eq!(n.method(), "trickle");
            assert_eq!(n.params().len(), 1);
            assert_eq!(n.params()[0].0, "candidate");
        }
        other => panic!("unexpected {:?}", other),
    }
}

#[test]
fn ambiguous_payload_decodes_as_request_every_time() {
    let text = "{\"id\":\"1\",\"method\":\"m\",\"params\":{},\"result\":{}}";
    for _ in 0..5 {
        assert!(matches!(decode(text), Ok(Message::Request(_))));
    }
}

#[test]
fn response_with_wrong_params_kind() {
    let text = "{\"id\":\"1\",\"method\":\"m\",\"params\":[1]}";
    assert!(matches!(decode(text), Ok(Message::Response(_))));
}

#[test]
fn null_result_and_error_read_as_absent() {
    match decode("{\"id\":\"1\",\"method\":\"m\",\"result\":null,\"error\":null}") {
        Ok(Message::Response(r)) => {
            assert!(r.result.is_none());
            assert!(r.error.is_none());
        }
        other => panic!("unexpected {:?}", other),
    }
}

#[test]
fn result_of_wrong_kind_is_malformed() {
    let r = decode("{\"id\":\"1\",\"method\":\"m\",\"result\":5}");
    assert!(matches!(r, Err(BridgeError::MalformedMessage(_))));
}

#[test]
fn notification_without_id() {
    assert!(matches!(
        decode("{\"method\":\"m\",\"params\":{\"k\":true}}"),
        Ok(Message::Notification(_))
    ));
}

#[test]
fn unknown_members_are_ignored() {
    assert!(matches!(
        decode("{\"method\":\"m\",\"params\":{},\"extra\":[1,2]}"),
        Ok(Message::Notification(_))
    ));
}

#[test]
fn invalid_json_is_malformed() {
    match decode("{not json") {
        Err(BridgeError::MalformedMessage(detail)) => assert!(!detail.is_empty()),
        other => panic!("unexpected {:?}", other),
    }
}

#[test]
fn null_payload_is_malformed() {
    assert!(matches!(decode("null"), Err(BridgeError::MalformedMessage(_))));
}

#[test]
fn object_without_method_is_malformed() {
    match decode("{\"id\":\"1\",\"params\":{}}") {
        Err(BridgeError::MalformedMessage(detail)) => {
            assert_eq!(detail, "data did not match any variant of untagged enum Message")
        }
        other => panic!("unexpected {:?}", other),
    }
}

#[test]
fn id_of_wrong_kind_is_not_a_request() {
    assert!(matches!(
        decode("{\"id\":1,\"method\":\"m\",\"params\":{}}"),
        Ok(Message::Notification(_))
    ));
}

#[test]
fn json_level_round_trip() {
    let j = message_to_json(Message::Request(Request {
        id: "5".to_string(),
        method: "m".to_string(),
        params: vec![],
    }));
    assert!(matches!(message_from_json(j), Some(Message::Request(_))));
}

#[test]
fn duplicate_member_last_wins() {
    let j = Json::Object(vec![
        ("method".to_string(), Json::Str("first".to_string())),
        ("params".to_string(), Json::Object(vec![])),
        ("method".to_string(), Json::Str("second".to_string())),
    ]);
    match message_from_json(j) {
        Some(Message::Notification(n)) => assert_eq!(n.method(), "second"),
        other => panic!("unexpected {:?}", other),
    }
}

#[test]
fn non_object_value_is_not_a_message() {
    assert!(message_from_json(Json::Array(vec![])).is_none());
    assert!(message_from_json(Json::Null).is_none());
}
