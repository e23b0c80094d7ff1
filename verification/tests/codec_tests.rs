use grace_chat::codec::{decode, encode};
use grace_chat::protocol::{DecodeError, Message, PresenceStatus};

fn chat(id: &str, content: &str, user_id: &str, timestamp: u64) -> Message {
    Message::ChatMessage {
        id: id.to_string(),
        content: content.to_string(),
        user_id: user_id.to_string(),
        timestamp,
    }
}

#[test]
fn encode_chat_message_exact_frame() {
    let m = chat("a1", "hi", "u1", 42);
    assert_eq!(
        encode(&m),
        "{\"type\":\"ChatMessage\",\"id\":\"a1\",\"content\":\"hi\",\"userId\":\"u1\",\"timestamp\":42}"
    );
}

#[test]
fn encode_user_typing_exact_frame() {
    let m = Message::UserTyping { user_id: "u2".to_string(), is_typing: true };
    assert_eq!(encode(&m), "{\"type\":\"UserTyping\",\"userId\":\"u2\",\"isTyping\":true}");
    let m = Message::UserTyping { user_id: "u2".to_string(), is_typing: false };
    assert_eq!(encode(&m), "{\"type\":\"UserTyping\",\"userId\":\"u2\",\"isTyping\":false}");
}

#[test]
fn encode_connected_exact_frame() {
    let m = Message::Connected { user_id: "u1".to_string(), session_id: "123".to_string() };
    assert_eq!(encode(&m), "{\"type\":\"Connected\",\"userId\":\"u1\",\"sessionId\":\"123\"}");
}

#[test]
fn encode_presence_exact_frames() {
    let m = Message::UserPresence { user_id: "u".to_string(), status: PresenceStatus::Online };
    assert_eq!(encode(&m), "{\"type\":\"UserPresence\",\"userId\":\"u\",\"status\":\"online\"}");
    let m = Message::UserPresence { user_id: "u".to_string(), status: PresenceStatus::Away };
    assert_eq!(encode(&m), "{\"type\":\"UserPresence\",\"userId\":\"u\",\"status\":\"away\"}");
    let m = Message::UserPresence { user_id: "u".to_string(), status: PresenceStatus::Offline };
    assert_eq!(encode(&m), "{\"type\":\"UserPresence\",\"userId\":\"u\",\"status\":\"offline\"}");
}

#[test]
fn encode_server_response_exact_frames() {
    let m = Message::ServerResponse {
        message_id: "m1".to_string(),
        status: "ok".to_string(),
        data: Some("d".to_string()),
    };
    assert_eq!(
        encode(&m),
        "{\"type\":\"ServerResponse\",\"messageId\":\"m1\",\"status\":\"ok\",\"data\":\"d\"}"
    );
    let m = Message::ServerResponse {
        message_id: "m1".to_string(),
        status: "ok".to_string(),
        data: None,
    };
    assert_eq!(
        encode(&m),
        "{\"type\":\"ServerResponse\",\"messageId\":\"m1\",\"status\":\"ok\",\"data\":null}"
    );
}

#[test]
fn encode_error_exact_frame() {
    let m = Message::Error { code: "E1".to_string(), message: "boom".to_string() };
    assert_eq!(encode(&m), "{\"type\":\"Error\",\"code\":\"E1\",\"message\":\"boom\"}");
}

#[test]
fn encode_escapes_quotes_and_backslashes() {
    let m = chat("i", "a\"b\\c", "u", 1);
    assert_eq!(
        encode(&m),
        "{\"type\":\"ChatMessage\",\"id\":\"i\",\"content\":\"a\\\"b\\\\c\",\"userId\":\"u\",\"timestamp\":1}"
    );
}

#[test]
fn encode_escapes_control_characters() {
    let m = chat("i", "a\nb\rc\td\u{01}e", "u", 1);
    let frame = encode(&m);
    assert!(frame.contains("a\\nb\\rc\\td\\u0001e"));
}

#[test]
fn round_trip_every_variant() {
    let messages = vec![
        chat("id-1", "hello there", "u1", 1700000000123),
        Message::UserTyping { user_id: "u1".to_string(), is_typing: true },
        Message::UserTyping { user_id: "u1".to_string(), is_typing: false },
        Message::Connected { user_id: "u1".to_string(), session_id: "1700000000123".to_string() },
        Message::UserPresence { user_id: "ana".to_string(), status: PresenceStatus::Online },
        Message::UserPresence { user_id: "bob".to_string(), status: PresenceStatus::Away },
        Message::UserPresence { user_id: "cyn".to_string(), status: PresenceStatus::Offline },
        Message::ServerResponse {
            message_id: "m-9".to_string(),
            status: "ok".to_string(),
            data: Some("stored".to_string()),
        },
        Message::ServerResponse {
            message_id: "m-9".to_string(),
            status: "error".to_string(),
            data: None,
        },
        Message::Error { code: "RATE_LIMIT".to_string(), message: "slow down".to_string() },
    ];
    for m in messages {
        assert_eq!(decode(&encode(&m)), Ok(m));
    }
}

#[test]
fn round_trip_awkward_strings() {
    let contents = vec![
        "",
        "\"",
        "\\",
        "\\\"\\",
        "line1\nline2\r\ttabbed",
        "\u{00}\u{01}\u{1f}",
        "héllo wörld — ¿qué tal? 😀",
        "{\"type\":\"ChatMessage\"}",
        "null,true,false",
    ];
    for c in contents {
        let m = chat(c, c, c, 7);
        assert_eq!(decode(&encode(&m)), Ok(m));
    }
}

#[test]
fn round_trip_timestamp_bounds() {
    for ts in [0u64, 1, 9, 10, 99, 100, 1000000007, u64::MAX] {
        let m = chat("i", "c", "u", ts);
        assert_eq!(decode(&encode(&m)), Ok(m));
    }
}

#[test]
fn decode_unknown_discriminant() {
    let r = decode("{\"type\":\"Ping\",\"x\":1}");
    assert_eq!(r, Err(DecodeError::UnknownVariant));
    let r = decode("{\"type\":\"chatmessage\",\"id\":\"a\"}");
    assert_eq!(r, Err(DecodeError::UnknownVariant));
    let r = decode("{\"type\":\"\"}");
    assert_eq!(r, Err(DecodeError::UnknownVariant));
}

#[test]
fn decode_malformed_text() {
    for bad in [
        "",
        "not json",
        "{",
        "{\"type\":",
        "{\"type\":\"ChatMessage\"}",
        "{\"type\":\"ChatMessage\",\"id\":\"a\"}",
        "{\"type\":\"UserTyping\",\"userId\":\"u\",\"isTyping\":maybe}",
        "{\"type\":\"UserPresence\",\"userId\":\"u\",\"status\":\"busy\"}",
        "{\"type\":\"ChatMessage\",\"id\":\"a\",\"content\":\"c\",\"userId\":\"u\",\"timestamp\":-1}",
        "{\"type\":\"ChatMessage\",\"id\":\"a\",\"content\":\"c\",\"userId\":\"u\",\"timestamp\":01}",
        "{\"type\":\"ChatMessage\",\"id\":\"a\",\"content\":\"c\",\"userId\":\"u\",\"timestamp\":18446744073709551616}",
        "{\"type\":\"Error\",\"code\":\"E\",\"message\":\"m\"} ",
        "{\"type\":\"Error\",\"code\":\"E\",\"message\":\"m\"",
        "{\"type\":\"UserTyping\",\"userId\":\"u\",\"isTyping\":truex}",
        "{\"type\":\"ServerResponse\",\"messageId\":\"m\",\"status\":\"ok\",\"data\":true}",
    ] {
        assert_eq!(decode(bad), Err(DecodeError::MalformedPayload), "input: {bad:?}");
    }
}

#[test]
fn decode_requires_canonical_field_order() {
    let r = decode("{\"type\":\"UserTyping\",\"isTyping\":true,\"userId\":\"u\"}");
    assert_eq!(r, Err(DecodeError::MalformedPayload));
}

#[test]
fn decode_rejects_unescaped_control_character() {
    let r = decode("{\"type\":\"Error\",\"code\":\"a\nb\",\"message\":\"m\"}");
    assert_eq!(r, Err(DecodeError::MalformedPayload));
}

#[test]
fn frames_are_real_json() {
    let m = chat("id-1", "a\"b\\c\nd\te\u{01}f — 😀", "u1", 1700000000123);
    let frame = encode(&m);
    let v: serde_json::Value = serde_json::from_str(&frame).expect("frame must parse as JSON");
    assert_eq!(v.get("type").and_then(|t| t.as_str()), Some("ChatMessage"));
    assert_eq!(v.get("id").and_then(|t| t.as_str()), Some("id-1"));
    assert_eq!(v.get("content").and_then(|t| t.as_str()), Some("a\"b\\c\nd\te\u{01}f — 😀"));
    assert_eq!(v.get("userId").and_then(|t| t.as_str()), Some("u1"));
    assert_eq!(v.get("timestamp").and_then(|t| t.as_u64()), Some(1700000000123));
}

#[test]
fn frames_are_real_json_null_data() {
    let m = Message::ServerResponse {
        message_id: "m".to_string(),
        status: "ok".to_string(),
        data: None,
    };
    let v: serde_json::Value = serde_json::from_str(&encode(&m)).unwrap();
    assert!(v.get("data").unwrap().is_null());
}
