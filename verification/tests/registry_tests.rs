use wsrelay::error::ServerError;
use wsrelay::msg::Msg;
use wsrelay::registry::{Registry, QUEUE_CAPACITY};

fn msg(ty: &str) -> Msg {
    Msg {
        username: "alice".to_string(),
        type_: ty.to_string(),
        audio_url: None,
        status_type: None,
    }
}

#[test]
fn send_to_unregistered_creates_nothing() {
    let mut reg = Registry::new();
    let alice = "alice".to_string();
    let r = reg.send(&alice, msg("play"));
    assert_eq!(r, Err(ServerError::NotFound));
    assert!(!reg.contains_user(&alice));
    assert_eq!(reg.queue_len(&alice), None);
}

#[test]
fn fifo_delivery_order() {
    let mut reg = Registry::new();
    let alice = "alice".to_string();
    let g = reg.register(alice.clone());
    assert!(reg.send(&alice, msg("first")).is_ok());
    assert!(reg.send(&alice, msg("second")).is_ok());
    assert!(reg.send(&alice, msg("third")).is_ok());
    assert_eq!(reg.pop(&alice, g).unwrap().type_, "first");
    assert_eq!(reg.pop(&alice, g).unwrap().type_, "second");
    assert_eq!(reg.pop(&alice, g).unwrap().type_, "third");
    assert!(reg.pop(&alice, g).is_none());
}

#[test]
fn full_queue_drops_newest() {
    let mut reg = Registry::new();
    let alice = "alice".to_string();
    let g = reg.register(alice.clone());
    for i in 0..QUEUE_CAPACITY {
        assert!(reg.send(&alice, msg(&format!("m{}", i))).is_ok());
    }
    assert_eq!(reg.queue_len(&alice), Some(QUEUE_CAPACITY));
    let r = reg.send(&alice, msg("overflow"));
    assert_eq!(r, Err(ServerError::Full));
    assert_eq!(reg.queue_len(&alice), Some(QUEUE_CAPACITY));
    for i in 0..QUEUE_CAPACITY {
        assert_eq!(reg.pop(&alice, g).unwrap().type_, format!("m{}", i));
    }
    assert!(reg.pop(&alice, g).is_none());
}

#[test]
fn replacement_takes_over_delivery() {
    let mut reg = Registry::new();
    let alice = "alice".to_string();
    let g1 = reg.register(alice.clone());
    assert!(reg.send(&alice, msg("lost")).is_ok());
    let g2 = reg.register(alice.clone());
    assert_ne!(g1, g2);
    assert_eq!(reg.generation_of(&alice), Some(g2));
    assert_eq!(reg.queue_len(&alice), Some(0));
    assert!(reg.send(&alice, msg("kept")).is_ok());
    assert!(reg.pop(&alice, g1).is_none());
    assert_eq!(reg.pop(&alice, g2).unwrap().type_, "kept");
}

#[test]
fn unregister_checks_generation() {
    let mut reg = Registry::new();
    let alice = "alice".to_string();
    let g1 = reg.register(alice.clone());
    let g2 = reg.register(alice.clone());
    reg.unregister(&alice, g1);
    assert!(reg.contains_user(&alice));
    assert_eq!(reg.generation_of(&alice), Some(g2));
    reg.unregister(&alice, g2);
    assert!(!reg.contains_user(&alice));
}

#[test]
fn usernames_are_independent() {
    let mut reg = Registry::new();
    let alice = "alice".to_string();
    let bob = "bob".to_string();
    let ga = reg.register(alice.clone());
    let gb = reg.register(bob.clone());
    assert!(reg.send(&alice, msg("for-alice")).is_ok());
    assert!(reg.pop(&bob, gb).is_none());
    assert_eq!(reg.pop(&alice, ga).unwrap().type_, "for-alice");
}
