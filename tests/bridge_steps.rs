use switchboard_signal::bridge::{Action, Bridge, Event};
use switchboard_signal::json::Json;
use switchboard_signal::message::{decode, BridgeError, Message, Notification};

fn text(s: &str) -> Event {
    Event::TextFrame(s.to_string())
}

#[test]
fn new_bridge_runs() {
    assert!(Bridge::new().is_running());
}

#[test]
fn malformed_frame_then_good_frame() {
    let mut b = Bridge::new();
    let first = b.step(text("{oops"));
    let second = b.step(text("{\"method\":\"m\",\"params\":{}}"));
    assert!(matches!(first, Action::Deliver(Err(BridgeError::MalformedMessage(_)))));
    assert!(matches!(second, Action::Deliver(Ok(Message::Notification(_)))));
    assert!(b.is_running());
}

#[test]
fn binary_frame_between_text_frames_is_dropped() {
    let mut b = Bridge::new();
    let mut delivered = Vec::new();
    for ev in vec![
        text("{\"id\":\"1\",\"method\":\"a\",\"params\":{}}"),
        Event::OtherFrame,
        text("{\"method\":\"b\",\"params\":{}}"),
    ] {
        match b.step(ev) {
            Action::Deliver(e) => delivered.push(e),
            Action::Discard => {}
            other => panic!("unexpected {:?}", other),
        }
    }
    assert_eq!(delivered.len(), 2);
    assert!(matches!(delivered[0], Ok(Message::Request(_))));
    assert!(matches!(delivered[1], Ok(Message::Notification(_))));
}

#[test]
fn submitted_notifications_written_in_order() {
    let mut b = Bridge::new();
    let n: usize = 20;
    let mut frames = Vec::new();
    for i in 0..n {
        let m = Message::Notification(Notification::new(
            format!("m{}", i),
            vec![("i".to_string(), Json::Number(serde_json::Number::from(i as u64)))],
        ));
        match b.step(Event::Submitted(m)) {
            Action::Write(t) => frames.push(t),
            other => panic!("unexpected {:?}", other),
        }
    }
    assert_eq!(frames.len(), n);
    for (i, t) in frames.iter().enumerate() {
        match decode(t) {
            Ok(Message::Notification(x)) => assert_eq!(x.method(), &format!("m{}", i)),
            other => panic!("unexpected {:?}", other),
        }
    }
}

#[test]
fn peer_close_ends_the_bridge() {
    let mut b = Bridge::new();
    assert!(matches!(b.step(Event::PeerClosed), Action::Close(None)));
    assert!(!b.is_running());
    assert!(matches!(b.step(text("{\"method\":\"m\",\"params\":{}}")), Action::Rejected));
    let m = Message::Notification(Notification::new("late".to_string(), vec![]));
    assert!(matches!(b.step(Event::Submitted(m)), Action::Rejected));
}

#[test]
fn read_failure_is_delivered_then_ends() {
    let mut b = Bridge::new();
    match b.step(Event::ReadFailed("reset".to_string())) {
        Action::Close(Some(BridgeError::TransportReadFailure(d))) => assert_eq!(d, "reset"),
        other => panic!("unexpected {:?}", other),
    }
    assert!(!b.is_running());
}

#[test]
fn upstream_error_closes_without_cause() {
    let mut b = Bridge::new();
    assert!(matches!(b.step(Event::UpstreamFailed("app".to_string())), Action::Close(None)));
    assert!(matches!(b.step(Event::OtherFrame), Action::Rejected));
}

#[test]
fn write_failure_and_dropped_queue_close() {
    let mut b = Bridge::new();
    assert!(matches!(b.step(Event::WriteFailed), Action::Close(None)));
    let mut c = Bridge::new();
    assert!(matches!(c.step(Event::OutboundDropped), Action::Close(None)));
    assert!(matches!(c.step(Event::PeerClosed), Action::Rejected));
}
