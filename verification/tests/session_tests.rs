use wsrelay::ingress::{handle_post, IngressOutcome};
use wsrelay::registry::Registry;
use wsrelay::session::{RelayEvent, Session};

#[test]
fn handshake_failure_registers_nothing() {
    let mut reg = Registry::new();
    let mut s = Session::new();
    assert!(s.on_first_frame(&mut reg, None).is_err());
    assert!(!reg.contains_user(&"alice".to_string()));
}

#[test]
fn relay_flow_delivers_one_frame() {
    let mut reg = Registry::new();
    let mut s = Session::new();
    s.on_first_frame(&mut reg, Some("alice".to_string())).unwrap();
    assert_eq!(s.username(), "alice");
    let o = handle_post(
        &mut reg,
        "{\"username\":\"alice\",\"msgType\":\"play\",\"audioUrl\":\"http://x/a.mp3\"}",
    );
    assert_eq!(o, IngressOutcome::Delivered);
    let frame = s.next_frame(&mut reg).unwrap();
    assert_eq!(
        frame,
        "{\"msgType\":\"play\",\"audioUrl\":\"http://x/a.mp3\",\"statusType\":null}"
    );
    assert!(s.next_frame(&mut reg).is_none());
}

#[test]
fn close_removes_own_entry() {
    let mut reg = Registry::new();
    let mut s = Session::new();
    s.on_first_frame(&mut reg, Some("alice".to_string())).unwrap();
    assert!(reg.contains_user(&"alice".to_string()));
    let closed = s.on_relay_event(&mut reg, RelayEvent::PeerClosed);
    assert!(closed);
    assert!(!reg.contains_user(&"alice".to_string()));
}

#[test]
fn write_failure_closes_too() {
    let mut reg = Registry::new();
    let mut s = Session::new();
    s.on_first_frame(&mut reg, Some("bob".to_string())).unwrap();
    let closed = s.on_relay_event(&mut reg, RelayEvent::WriteFailed);
    assert!(closed);
    assert!(!reg.contains_user(&"bob".to_string()));
}

#[test]
fn peer_frames_are_ignored() {
    let mut reg = Registry::new();
    let mut s = Session::new();
    s.on_first_frame(&mut reg, Some("alice".to_string())).unwrap();
    assert!(!s.on_relay_event(&mut reg, RelayEvent::PeerFrame));
    assert!(reg.contains_user(&"alice".to_string()));
}

#[test]
fn second_registration_wins() {
    let mut reg = Registry::new();
    let mut s1 = Session::new();
    let mut s2 = Session::new();
    s1.on_first_frame(&mut reg, Some("alice".to_string())).unwrap();
    s2.on_first_frame(&mut reg, Some("alice".to_string())).unwrap();
    let o = handle_post(&mut reg, "{\"username\":\"alice\",\"msgType\":\"play\"}");
    assert_eq!(o, IngressOutcome::Delivered);
    // the replaced session can deliver nothing further
    assert!(s1.next_frame(&mut reg).is_none());
    // the replacement delivers the event
    let frame = s2.next_frame(&mut reg).unwrap();
    assert_eq!(frame, "{\"msgType\":\"play\",\"audioUrl\":null,\"statusType\":null}");
}

#[test]
fn old_session_close_leaves_replacement_registered() {
    let mut reg = Registry::new();
    let mut s1 = Session::new();
    let mut s2 = Session::new();
    s1.on_first_frame(&mut reg, Some("alice".to_string())).unwrap();
    s2.on_first_frame(&mut reg, Some("alice".to_string())).unwrap();
    let closed = s1.on_relay_event(&mut reg, RelayEvent::ReadFailed);
    assert!(closed);
    assert!(reg.contains_user(&"alice".to_string()));
    let o = handle_post(&mut reg, "{\"username\":\"alice\",\"msgType\":\"play\"}");
    assert_eq!(o, IngressOutcome::Delivered);
    assert!(s2.next_frame(&mut reg).is_some());
}
