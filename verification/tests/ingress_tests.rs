use wsrelay::ingress::{handle_post, status_code, IngressOutcome, STATUS_ACCEPTED, STATUS_BAD_REQUEST};
use wsrelay::msg::Msg;
use wsrelay::registry::{Registry, QUEUE_CAPACITY};

#[test]
fn post_without_consumer_is_acknowledged() {
    let mut reg = Registry::new();
    let o = handle_post(
        &mut reg,
        "{\"username\":\"alice\",\"msgType\":\"play\",\"audioUrl\":\"http://x/a.mp3\"}",
    );
    assert_eq!(o, IngressOutcome::NoConsumer);
    assert_eq!(status_code(o), STATUS_ACCEPTED);
    assert!(!reg.contains_user(&"alice".to_string()));
}

#[test]
fn post_malformed_is_rejected() {
    let mut reg = Registry::new();
    let o = handle_post(&mut reg, "{\"username\":\"alice\"");
    assert_eq!(o, IngressOutcome::BadRequest);
    assert_eq!(status_code(o), STATUS_BAD_REQUEST);
}

#[test]
fn post_to_full_queue_is_dropped() {
    let mut reg = Registry::new();
    let alice = "alice".to_string();
    let g = reg.register(alice.clone());
    for _ in 0..QUEUE_CAPACITY {
        let m = Msg {
            username: alice.clone(),
            type_: "play".to_string(),
            audio_url: None,
            status_type: None,
        };
        assert!(reg.send(&alice, m).is_ok());
    }
    let o = handle_post(&mut reg, "{\"username\":\"alice\",\"msgType\":\"late\"}");
    assert_eq!(o, IngressOutcome::QueueFull);
    assert_eq!(status_code(o), STATUS_ACCEPTED);
    assert_eq!(reg.queue_len(&alice), Some(QUEUE_CAPACITY));
    // the queue still drains to the messages that were there first
    assert_eq!(reg.pop(&alice, g).unwrap().type_, "play");
}

#[test]
fn post_delivers_to_registered_consumer() {
    let mut reg = Registry::new();
    let alice = "alice".to_string();
    let g = reg.register(alice.clone());
    let o = handle_post(&mut reg, "{\"username\":\"alice\",\"msgType\":\"play\"}");
    assert_eq!(o, IngressOutcome::Delivered);
    assert_eq!(status_code(o), STATUS_ACCEPTED);
    let got = reg.pop(&alice, g).unwrap();
    assert_eq!(got.username, "alice");
    assert_eq!(got.type_, "play");
}
