use wsrelay::codec::{decode_msg, decode_payload, encode_payload};
use wsrelay::msg::Msg;

fn sample() -> Msg {
    Msg {
        username: "alice".to_string(),
        type_: "play".to_string(),
        audio_url: Some("http://x/a.mp3".to_string()),
        status_type: None,
    }
}

#[test]
fn encode_frame_exact() {
    let frame = encode_payload(&sample());
    assert_eq!(
        frame,
        "{\"msgType\":\"play\",\"audioUrl\":\"http://x/a.mp3\",\"statusType\":null}"
    );
}

#[test]
fn encode_omits_username() {
    let frame = encode_payload(&sample());
    assert!(!frame.contains("alice"));
    assert!(!frame.contains("username"));
}

#[test]
fn decode_post_body() {
    let m = decode_msg("{\"username\":\"alice\",\"msgType\":\"play\",\"audioUrl\":\"http://x/a.mp3\"}")
        .unwrap();
    assert_eq!(m.username, "alice");
    assert_eq!(m.type_, "play");
    assert_eq!(m.audio_url.as_deref(), Some("http://x/a.mp3"));
    assert_eq!(m.status_type, None);
}

#[test]
fn decode_alias_spellings_agree() {
    let canonical =
        decode_msg("{\"username\":\"u\",\"msgType\":\"play\",\"audioUrl\":\"a\",\"statusType\":\"s\"}")
            .unwrap();
    let aliased =
        decode_msg("{\"username\":\"u\",\"msg_type\":\"play\",\"audio_url\":\"a\",\"status_type\":\"s\"}")
            .unwrap();
    assert_eq!(canonical, aliased);
}

#[test]
fn decode_field_order_irrelevant() {
    let m = decode_msg("{\"msgType\":\"play\",\"username\":\"alice\"}").unwrap();
    assert_eq!(m.username, "alice");
    assert_eq!(m.type_, "play");
}

#[test]
fn decode_duplicate_field_rejected() {
    assert!(decode_msg("{\"username\":\"u\",\"msgType\":\"a\",\"msgType\":\"b\"}").is_err());
    assert!(decode_msg("{\"username\":\"u\",\"msgType\":\"a\",\"msg_type\":\"b\"}").is_err());
    assert!(decode_msg("{\"username\":\"u\",\"username\":\"v\",\"msgType\":\"a\"}").is_err());
}

#[test]
fn decode_missing_required_rejected() {
    assert!(decode_msg("{\"msgType\":\"play\"}").is_err());
    assert!(decode_msg("{\"username\":\"alice\"}").is_err());
    assert!(decode_msg("{}").is_err());
}

#[test]
fn decode_null_required_rejected() {
    assert!(decode_msg("{\"username\":null,\"msgType\":\"play\"}").is_err());
    assert!(decode_msg("{\"username\":\"u\",\"msgType\":null}").is_err());
}

#[test]
fn decode_null_optional_is_absent() {
    let m = decode_msg("{\"username\":\"u\",\"msgType\":\"t\",\"audioUrl\":null}").unwrap();
    assert_eq!(m.audio_url, None);
}

#[test]
fn decode_unknown_key_ignored() {
    let m = decode_msg("{\"username\":\"u\",\"msgType\":\"t\",\"extra\":\"x\"}").unwrap();
    assert_eq!(m.type_, "t");
}

#[test]
fn decode_whitespace_tolerated() {
    let m = decode_msg(" {\n\t\"username\" : \"u\" ,\r\n \"msgType\" : \"t\" } ").unwrap();
    assert_eq!(m.username, "u");
    assert_eq!(m.type_, "t");
}

#[test]
fn decode_malformed_rejected() {
    assert!(decode_msg("").is_err());
    assert!(decode_msg("not json").is_err());
    assert!(decode_msg("{\"username\":}").is_err());
    assert!(decode_msg("{\"username\":\"u\"").is_err());
    assert!(decode_msg("{\"username\":\"u\",}").is_err());
    assert!(decode_msg("{\"username\":\"u\"} trailing").is_err());
    assert!(decode_msg("[\"username\"]").is_err());
    assert!(decode_msg("{\"username\":3,\"msgType\":\"t\"}").is_err());
    assert!(decode_msg("{\"username\":\"u\",\"msgType\":\"t\",\"extra\":{}}").is_err());
    assert!(decode_msg("{\"username\":\"u\",\"msgType\":\"t\",\"extra\":[1]}").is_err());
}

#[test]
fn decode_escapes() {
    let m = decode_msg("{\"username\":\"u\",\"msgType\":\"a\\n\\t\\\"b\\\\c\\/d\\u0041\"}")
        .unwrap();
    assert_eq!(m.type_, "a\n\t\"b\\c/dA");
}

#[test]
fn decode_bad_escape_rejected() {
    assert!(decode_msg("{\"username\":\"u\",\"msgType\":\"a\\x\"}").is_err());
    assert!(decode_msg("{\"username\":\"u\",\"msgType\":\"\\uD800\"}").is_err());
    assert!(decode_msg("{\"username\":\"u\",\"msgType\":\"\\u12\"}").is_err());
}

#[test]
fn decode_raw_control_rejected() {
    assert!(decode_msg("{\"username\":\"u\",\"msgType\":\"a\nb\"}").is_err());
}

#[test]
fn round_trip_plain() {
    let frame = encode_payload(&sample());
    let p = decode_payload(&frame).unwrap();
    assert_eq!(p.type_, "play");
    assert_eq!(p.audio_url.as_deref(), Some("http://x/a.mp3"));
    assert_eq!(p.status_type, None);
}

#[test]
fn round_trip_escapes() {
    let m = Msg {
        username: "u".to_string(),
        type_: "a\"b\\c\nd\te\r\u{8}\u{c}\u{1}f".to_string(),
        audio_url: Some("x\u{1f}y".to_string()),
        status_type: Some("caf\u{e9} \u{2713} \u{1f3b5}".to_string()),
    };
    let frame = encode_payload(&m);
    let p = decode_payload(&frame).unwrap();
    assert_eq!(p.type_, m.type_);
    assert_eq!(p.audio_url, m.audio_url);
    assert_eq!(p.status_type, m.status_type);
}

#[test]
fn round_trip_all_fields_none() {
    let m = Msg {
        username: "u".to_string(),
        type_: "stop".to_string(),
        audio_url: None,
        status_type: None,
    };
    let frame = encode_payload(&m);
    assert_eq!(frame, "{\"msgType\":\"stop\",\"audioUrl\":null,\"statusType\":null}");
    let p = decode_payload(&frame).unwrap();
    assert_eq!(p.type_, "stop");
    assert_eq!(p.audio_url, None);
    assert_eq!(p.status_type, None);
}
