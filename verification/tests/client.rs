use deribit::codec::{decode, encode_request};
use deribit::dispatch::{Action, Dispatcher, Event, FatalReason};
use deribit::issuer::{interpret_response, RequestIssuer};
use deribit::messages::{DeribitError, Frame, InboundMessage};
use deribit::{ws_url, Deribit};

fn text(s: &str) -> Event<i64> {
    Event::Inbound { frame: Frame::Text(s.as_bytes().to_vec()) }
}

#[test]
fn decode_reply() {
    let msg = decode(&b"{\"id\":0,\"result\":{}}".to_vec()).unwrap();
    match msg {
        InboundMessage::Reply { id, result } => {
            assert_eq!(id, 0);
            assert_eq!(result, b"{}".to_vec());
        }
        _ => panic!("expected a reply"),
    }
}

#[test]
fn decode_error_reply() {
    let msg = decode(&b"{\"id\":0,\"error\":{\"code\":10,\"message\":\"bad\"}}".to_vec()).unwrap();
    match msg {
        InboundMessage::ErrorReply { id, code, message } => {
            assert_eq!(id, 0);
            assert_eq!(code, 10);
            assert_eq!(message, b"bad".to_vec());
        }
        _ => panic!("expected an error reply"),
    }
}

#[test]
fn decode_notification() {
    let raw = b"{\"type\":\"notification\",\"channel\":\"x\"}".to_vec();
    let msg = decode(&raw).unwrap();
    match msg {
        InboundMessage::Notification { payload } => assert_eq!(payload, raw),
        _ => panic!("expected a notification"),
    }
}

#[test]
fn decode_handles_whitespace_and_nesting() {
    let raw = b"  {\"id\" : 7 , \"result\" : [1, 2.5e3, {\"a\":\"b\\\"c\"}] }  ".to_vec();
    let msg = decode(&raw).unwrap();
    match msg {
        InboundMessage::Reply { id, result } => {
            assert_eq!(id, 7);
            assert_eq!(result, b"[1, 2.5e3, {\"a\":\"b\\\"c\"}]".to_vec());
        }
        _ => panic!("expected a reply"),
    }
}

#[test]
fn decode_negative_id() {
    let msg = decode(&b"{\"id\":-5,\"result\":1}".to_vec()).unwrap();
    match msg {
        InboundMessage::Reply { id, result } => {
            assert_eq!(id, -5);
            assert_eq!(result, b"1".to_vec());
        }
        _ => panic!("expected a reply"),
    }
}

#[test]
fn decode_oversized_id_is_a_notification() {
    // Nineteen digits exceed the integer token cap: no recognized envelope.
    let raw = b"{\"id\":1234567890123456789,\"result\":1}".to_vec();
    match decode(&raw).unwrap() {
        InboundMessage::Notification { payload } => assert_eq!(payload, raw),
        _ => panic!("expected a notification"),
    }
}

#[test]
fn decode_rejects_malformed_frames() {
    assert!(decode(&b"this is not json".to_vec()).is_none());
    assert!(decode(&b"{\"id\":".to_vec()).is_none());
    assert!(decode(&b"[1,2]".to_vec()).is_none());
    assert!(decode(&b"{\"id\":0,}".to_vec()).is_none());
    assert!(decode(&b"".to_vec()).is_none());
    assert!(decode(&b"{\"a\":\"unterminated}".to_vec()).is_none());
}

#[test]
fn decode_first_member_wins() {
    let msg = decode(&b"{\"id\":1,\"id\":2,\"result\":0}".to_vec()).unwrap();
    match msg {
        InboundMessage::Reply { id, .. } => assert_eq!(id, 1),
        _ => panic!("expected a reply"),
    }
}

#[test]
fn decode_unrecognized_envelopes_are_notifications() {
    // An id with neither result nor error.
    let raw = b"{\"id\":0}".to_vec();
    assert!(matches!(decode(&raw).unwrap(), InboundMessage::Notification { .. }));
    // An id that is not an integer token.
    let raw = b"{\"id\":\"x\",\"result\":1}".to_vec();
    assert!(matches!(decode(&raw).unwrap(), InboundMessage::Notification { .. }));
    // An error member without the code/message shape.
    let raw = b"{\"id\":1,\"error\":{\"code\":\"high\"}}".to_vec();
    assert!(matches!(decode(&raw).unwrap(), InboundMessage::Notification { .. }));
}

#[test]
fn decode_string_escapes_in_message() {
    let raw = b"{\"id\":2,\"error\":{\"code\":-3,\"message\":\"a\\u0041\\\\b\"}}".to_vec();
    match decode(&raw).unwrap() {
        InboundMessage::ErrorReply { id, code, message } => {
            assert_eq!(id, 2);
            assert_eq!(code, -3);
            // The message keeps its raw escape sequences.
            assert_eq!(message, b"a\\u0041\\\\b".to_vec());
        }
        _ => panic!("expected an error reply"),
    }
}

#[test]
fn encode_without_params() {
    let payload = encode_request(0, &b"ping".to_vec(), &None);
    assert_eq!(payload, b"{\"id\":0,\"method\":\"ping\",\"params\":null}".to_vec());
}

#[test]
fn encode_with_params() {
    let payload = encode_request(42, &b"private/get_transfers".to_vec(), &Some(b"{\"currency\":\"BTC\"}".to_vec()));
    assert_eq!(
        payload,
        b"{\"id\":42,\"method\":\"private/get_transfers\",\"params\":{\"currency\":\"BTC\"}}".to_vec()
    );
}

#[test]
fn encode_escapes_method() {
    let payload = encode_request(1, &b"a\"b\\c\nd".to_vec(), &None);
    assert_eq!(
        payload,
        b"{\"id\":1,\"method\":\"a\\\"b\\\\c\\u000ad\",\"params\":null}".to_vec()
    );
}

#[test]
fn scenario_ping_round_trip() {
    // A caller sends request id 0, method "ping"; the transport answers
    // {"id":0,"result":{}}; the caller receives the empty result.
    let mut issuer = RequestIssuer::new();
    let (id, payload) = issuer.next_request(&b"ping".to_vec(), &None);
    assert_eq!(id, 0);
    assert_eq!(payload, b"{\"id\":0,\"method\":\"ping\",\"params\":null}".to_vec());

    let mut disp: Dispatcher<i64> = Dispatcher::new();
    match disp.step(Event::Register { id, waiter: 7 }) {
        Action::Registered => {}
        _ => panic!("registration must succeed"),
    }
    assert_eq!(disp.pending(), 1);
    let resolved = disp.step(text("{\"id\":0,\"result\":{}}"));
    match resolved {
        Action::Resolved { waiter, response } => {
            assert_eq!(waiter, 7);
            match interpret_response(response) {
                Ok(v) => assert_eq!(v, b"{}".to_vec()),
                Err(_) => panic!("expected success"),
            }
        }
        _ => panic!("expected a resolution"),
    }
    assert_eq!(disp.pending(), 0);
    assert!(disp.is_running());
}

#[test]
fn scenario_notification_affects_no_caller() {
    let mut disp: Dispatcher<i64> = Dispatcher::new();
    assert!(matches!(disp.step(Event::Register { id: 0, waiter: 7 }), Action::Registered));
    let raw = "{\"type\":\"notification\",\"channel\":\"x\"}";
    match disp.step(text(raw)) {
        Action::Forwarded { message } => match message {
            InboundMessage::Notification { payload } => {
                assert_eq!(payload, raw.as_bytes().to_vec())
            }
            _ => panic!("expected a notification"),
        },
        _ => panic!("expected a forward"),
    }
    assert_eq!(disp.pending(), 1);
    assert!(disp.is_running());
}

#[test]
fn scenario_reply_to_resolved_id_is_fatal() {
    let mut disp: Dispatcher<i64> = Dispatcher::new();
    assert!(matches!(disp.step(Event::Register { id: 0, waiter: 7 }), Action::Registered));
    assert!(matches!(disp.step(text("{\"id\":0,\"result\":{}}")), Action::Resolved { .. }));
    // id 0 is already resolved; an error reply for it finds no waiter.
    let a = disp.step(text("{\"id\":0,\"error\":{\"code\":10,\"message\":\"bad\"}}"));
    match a {
        Action::Fatal { reason } => assert_eq!(reason, FatalReason::UnknownId { id: 0 }),
        _ => panic!("expected a fatal action"),
    }
    assert!(!disp.is_running());
}

#[test]
fn unknown_id_cancels_all_pending() {
    let mut disp: Dispatcher<i64> = Dispatcher::new();
    assert!(matches!(disp.step(Event::Register { id: 1, waiter: 11 }), Action::Registered));
    assert!(matches!(disp.step(Event::Register { id: 2, waiter: 22 }), Action::Registered));
    let a = disp.step(text("{\"id\":5,\"result\":{}}"));
    assert!(matches!(a, Action::Fatal { reason: FatalReason::UnknownId { id: 5 } }));
    assert!(!disp.is_running());
    // Every pending call is cancelled exactly once.
    let cancelled = disp.terminate();
    assert_eq!(cancelled, vec![11, 22]);
    assert_eq!(disp.pending(), 0);
    assert_eq!(disp.terminate(), Vec::<i64>::new());
}

#[test]
fn malformed_frame_is_fatal() {
    let mut disp: Dispatcher<i64> = Dispatcher::new();
    assert!(matches!(disp.step(Event::Register { id: 0, waiter: 7 }), Action::Registered));
    let a = disp.step(text("this is not json"));
    assert!(matches!(a, Action::Fatal { reason: FatalReason::MalformedFrame }));
    assert!(!disp.is_running());
    assert_eq!(disp.terminate(), vec![7]);
}

#[test]
fn duplicate_registration_is_fatal() {
    let mut disp: Dispatcher<i64> = Dispatcher::new();
    assert!(matches!(disp.step(Event::Register { id: 3, waiter: 1 }), Action::Registered));
    let a = disp.step(Event::Register { id: 3, waiter: 2 });
    assert!(matches!(a, Action::Fatal { reason: FatalReason::DuplicateId { id: 3 } }));
    assert!(!disp.is_running());
}

#[test]
fn control_frames_are_ignored() {
    let mut disp: Dispatcher<i64> = Dispatcher::new();
    assert!(matches!(disp.step(Event::Inbound { frame: Frame::Ping }), Action::Ignored));
    assert!(matches!(disp.step(Event::Inbound { frame: Frame::Pong }), Action::Ignored));
    assert!(matches!(disp.step(Event::Inbound { frame: Frame::Binary }), Action::Ignored));
    assert!(disp.is_running());
    assert_eq!(disp.pending(), 0);
}

#[test]
fn notifications_keep_arrival_order() {
    let mut disp: Dispatcher<i64> = Dispatcher::new();
    let first = "{\"channel\":\"a\"}";
    let second = "{\"channel\":\"b\"}";
    let mut seen: Vec<Vec<u8>> = Vec::new();
    for raw in [first, second] {
        match disp.step(text(raw)) {
            Action::Forwarded { message: InboundMessage::Notification { payload } } => {
                seen.push(payload)
            }
            _ => panic!("expected a forward"),
        }
    }
    assert_eq!(seen, vec![first.as_bytes().to_vec(), second.as_bytes().to_vec()]);
}

#[test]
fn correlation_is_order_independent() {
    let mut disp: Dispatcher<i64> = Dispatcher::new();
    assert!(matches!(disp.step(Event::Register { id: 0, waiter: 10 }), Action::Registered));
    assert!(matches!(disp.step(Event::Register { id: 1, waiter: 11 }), Action::Registered));
    // Replies arrive out of order; each reaches its own waiter.
    match disp.step(text("{\"id\":1,\"result\":\"second\"}")) {
        Action::Resolved { waiter, .. } => assert_eq!(waiter, 11),
        _ => panic!("expected a resolution"),
    }
    match disp.step(text("{\"id\":0,\"result\":\"first\"}")) {
        Action::Resolved { waiter, .. } => assert_eq!(waiter, 10),
        _ => panic!("expected a resolution"),
    }
    assert_eq!(disp.pending(), 0);
}

#[test]
fn issuer_never_reuses_ids() {
    let mut issuer = RequestIssuer::new();
    let (a, _) = issuer.next_request(&b"one".to_vec(), &None);
    let (b, _) = issuer.next_request(&b"two".to_vec(), &None);
    let (c, _) = issuer.next_request(&b"three".to_vec(), &None);
    assert_eq!((a, b, c), (0, 1, 2));
}

#[test]
fn interpret_error_reply() {
    let resp = InboundMessage::ErrorReply { id: 0, code: 10, message: b"bad".to_vec() };
    match interpret_response(resp) {
        Err(DeribitError::RemoteError { code, message }) => {
            assert_eq!(code, 10);
            assert_eq!(message, b"bad".to_vec());
        }
        _ => panic!("expected the remote error"),
    }
}

#[test]
fn configuration_defaults() {
    let d = Deribit::new();
    assert!(d.credential.is_none());
    assert!(!d.testnet);
    let d = Deribit::default();
    assert!(d.credential.is_none());
    let d = Deribit::with_credential("key".to_string(), "secret".to_string());
    assert_eq!(d.credential, Some(("key".to_string(), "secret".to_string())));
    assert!(!d.testnet);
}

#[test]
fn endpoint_selection() {
    assert_eq!(ws_url(false), "wss://www.deribit.com/ws/api/v2");
    assert_eq!(ws_url(true), "wss://test.deribit.com/ws/api/v2");
}
