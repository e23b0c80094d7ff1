use grace_chat::codec::decode;
use grace_chat::manager::{
    Command, ConnectionState, Notification, WebSocketManager,
};
use grace_chat::protocol::{DecodeError, Message, SendError};

fn open_count(commands: &[Command]) -> usize {
    commands.iter().filter(|c| matches!(c, Command::OpenTransport { .. })).count()
}

fn retry_count(commands: &[Command]) -> usize {
    commands.iter().filter(|c| matches!(c, Command::ScheduleRetry { .. })).count()
}

#[test]
fn new_manager_is_disconnected() {
    let m = WebSocketManager::new("wss://example.test/chat".to_string());
    assert_eq!(m.get_connection_state(), ConnectionState::Disconnected);
    assert!(!m.is_connected());
}

#[test]
fn connect_from_disconnected_yields_connecting_first() {
    let mut m = WebSocketManager::new("wss://example.test/chat".to_string());
    let (state, eff) = m.connect("u1".to_string());
    assert_eq!(state, ConnectionState::Connecting);
    assert_eq!(m.get_connection_state(), ConnectionState::Connecting);
    assert_eq!(eff.events, vec![Notification::StateChanged(ConnectionState::Connecting)]);
    assert_eq!(open_count(&eff.commands), 1);
    match &eff.commands[0] {
        Command::OpenTransport { url, generation } => {
            assert_eq!(url, "wss://example.test/chat");
            assert_eq!(*generation, 1);
        }
        other => panic!("expected OpenTransport, got {other:?}"),
    }
}

#[test]
fn connect_twice_opens_one_transport() {
    let mut m = WebSocketManager::new("wss://x".to_string());
    let (_, eff1) = m.connect("u1".to_string());
    let (state2, eff2) = m.connect("u1".to_string());
    assert_eq!(state2, ConnectionState::Connecting);
    assert!(eff2.commands.is_empty());
    assert!(eff2.events.is_empty());
    assert_eq!(open_count(&eff1.commands) + open_count(&eff2.commands), 1);
}

#[test]
fn connect_while_connected_is_a_no_op() {
    let mut m = WebSocketManager::new("wss://x".to_string());
    m.connect("u1".to_string());
    m.handle_open(1, 5);
    let (state, eff) = m.connect("u1".to_string());
    assert_eq!(state, ConnectionState::Connected);
    assert!(eff.commands.is_empty());
    assert!(eff.events.is_empty());
}

#[test]
fn open_sends_connected_frame_and_state_order() {
    // connect("u1") -> transport opens -> the manager auto-sends
    // Connected{u1, session} and the state observer saw [Connecting, Connected].
    let mut m = WebSocketManager::new("wss://x".to_string());
    let (_, eff1) = m.connect("u1".to_string());
    let eff2 = m.handle_open(1, 1700000000123);
    let mut seen = Vec::new();
    for e in eff1.events.iter().chain(eff2.events.iter()) {
        if let Notification::StateChanged(st) = e {
            seen.push(st.clone());
        }
    }
    assert_eq!(seen, vec![ConnectionState::Connecting, ConnectionState::Connected]);
    assert!(m.is_connected());
    assert_eq!(eff2.commands.len(), 1);
    match &eff2.commands[0] {
        Command::WriteFrame { text } => {
            let msg = decode(text).expect("the auto-sent frame must decode");
            assert_eq!(
                msg,
                Message::Connected {
                    user_id: "u1".to_string(),
                    session_id: "1700000000123".to_string(),
                }
            );
        }
        other => panic!("expected WriteFrame, got {other:?}"),
    }
}

#[test]
fn open_of_superseded_transport_is_ignored() {
    let mut m = WebSocketManager::new("wss://x".to_string());
    m.connect("u1".to_string());
    let eff = m.handle_open(0, 5);
    assert!(eff.commands.is_empty() && eff.events.is_empty());
    assert_eq!(m.get_connection_state(), ConnectionState::Connecting);
}

#[test]
fn normal_close_rests_at_disconnected() {
    let mut m = WebSocketManager::new("wss://x".to_string());
    m.connect("u1".to_string());
    m.handle_open(1, 5);
    let eff = m.handle_close(1, 1000);
    assert_eq!(eff.events, vec![Notification::StateChanged(ConnectionState::Disconnected)]);
    assert!(eff.commands.is_empty());
    assert_eq!(m.get_connection_state(), ConnectionState::Disconnected);
}

#[test]
fn abnormal_close_reconnects_then_reopens() {
    // connected, close 1006 with autoReconnect and interval 100:
    // [Reconnecting], then on the timer [Connecting], then on reopen [Connected].
    let mut m = WebSocketManager::new("wss://x".to_string());
    m.set_reconnect_options(true, 100, 5);
    m.connect("u1".to_string());
    m.handle_open(1, 5);
    let eff = m.handle_close(1, 1006);
    assert_eq!(eff.events, vec![Notification::StateChanged(ConnectionState::Reconnecting)]);
    assert_eq!(eff.commands.len(), 1);
    match &eff.commands[0] {
        Command::ScheduleRetry { generation, delay_ms } => {
            assert_eq!(*generation, 1);
            assert_eq!(*delay_ms, 100);
        }
        other => panic!("expected ScheduleRetry, got {other:?}"),
    }
    let eff = m.handle_timer(1);
    assert_eq!(eff.events, vec![Notification::StateChanged(ConnectionState::Connecting)]);
    assert_eq!(open_count(&eff.commands), 1);
    let eff = m.handle_open(2, 6);
    assert_eq!(eff.events, vec![Notification::StateChanged(ConnectionState::Connected)]);
    assert!(m.is_connected());
}

#[test]
fn abnormal_close_without_auto_reconnect_disconnects() {
    let mut m = WebSocketManager::new("wss://x".to_string());
    m.set_reconnect_options(false, 100, 5);
    m.connect("u1".to_string());
    m.handle_open(1, 5);
    let eff = m.handle_close(1, 1006);
    assert_eq!(eff.events, vec![Notification::StateChanged(ConnectionState::Disconnected)]);
    assert!(eff.commands.is_empty());
}

#[test]
fn reconnection_is_bounded_by_max_attempts() {
    // maxAttempts = 3: three abnormal closes, each retry re-opening and
    // failing again, schedule exactly three retries; the close after the
    // last re-open schedules no fourth and the state ends Failed.
    let mut m = WebSocketManager::new("wss://x".to_string());
    m.set_reconnect_options(true, 100, 3);
    m.connect("u1".to_string());
    let mut generation = 1u64;
    let mut retries = 0usize;
    for _ in 0..3 {
        let eff = m.handle_close(generation, 1006);
        retries += retry_count(&eff.commands);
        assert_eq!(m.get_connection_state(), ConnectionState::Reconnecting);
        let eff = m.handle_timer(generation);
        assert_eq!(open_count(&eff.commands), 1);
        generation += 1;
        assert_eq!(m.get_connection_state(), ConnectionState::Connecting);
    }
    assert_eq!(retries, 3);
    let eff = m.handle_close(generation, 1006);
    assert_eq!(retry_count(&eff.commands), 0);
    assert!(eff.commands.is_empty());
    assert_eq!(
        m.get_connection_state(),
        ConnectionState::Failed("reconnect attempts exhausted".to_string())
    );
    // a further close cannot schedule anything either
    let eff = m.handle_close(generation, 1006);
    assert!(eff.commands.is_empty() && eff.events.is_empty());
    // an explicit connect resets the cycle
    let (state, _) = m.connect("u1".to_string());
    assert_eq!(state, ConnectionState::Connecting);
}

#[test]
fn send_while_disconnected_is_gated() {
    let m = WebSocketManager::new("wss://x".to_string());
    let msg = Message::UserTyping { user_id: "u1".to_string(), is_typing: true };
    assert_eq!(m.send_message(&msg), Err(SendError::NotConnected));
    assert_eq!(m.send_typing_indicator(true), Err(SendError::NotConnected));
    assert_eq!(m.send_chat_message("hi".to_string(), 1), Err(SendError::NotConnected));
}

#[test]
fn send_while_connected_writes_the_frame() {
    let mut m = WebSocketManager::new("wss://x".to_string());
    m.connect("u1".to_string());
    m.handle_open(1, 5);
    let msg = Message::UserTyping { user_id: "u1".to_string(), is_typing: true };
    match m.send_message(&msg).expect("connected send must succeed") {
        Command::WriteFrame { text } => {
            assert_eq!(decode(&text), Ok(msg));
        }
        other => panic!("expected WriteFrame, got {other:?}"),
    }
}

#[test]
fn send_chat_message_uses_the_session() {
    let mut m = WebSocketManager::new("wss://x".to_string());
    m.connect("u7".to_string());
    m.handle_open(1, 99);
    match m.send_chat_message("hola".to_string(), 1234).unwrap() {
        Command::WriteFrame { text } => {
            let msg = decode(&text).unwrap();
            assert_eq!(
                msg,
                Message::ChatMessage {
                    id: "u7-1234".to_string(),
                    content: "hola".to_string(),
                    user_id: "u7".to_string(),
                    timestamp: 1234,
                }
            );
        }
        other => panic!("expected WriteFrame, got {other:?}"),
    }
}

#[test]
fn disconnect_closes_and_cancels_reconnection() {
    // connected, disconnect(): transport closed with 1000, [Disconnected],
    // and no reconnection can fire afterwards.
    let mut m = WebSocketManager::new("wss://x".to_string());
    m.connect("u1".to_string());
    m.handle_open(1, 5);
    let eff = m.disconnect();
    assert_eq!(eff.commands, vec![Command::CloseTransport { code: 1000 }]);
    assert_eq!(eff.events, vec![Notification::StateChanged(ConnectionState::Disconnected)]);
    // the transport's own close event arrives afterwards, superseded:
    let eff = m.handle_close(1, 1000);
    assert!(eff.commands.is_empty() && eff.events.is_empty());
    // a stale retry timer cannot resurrect a transport:
    let eff = m.handle_timer(1);
    assert!(eff.commands.is_empty() && eff.events.is_empty());
    assert_eq!(m.get_connection_state(), ConnectionState::Disconnected);
}

#[test]
fn disconnect_while_reconnecting_cancels_the_pending_retry() {
    let mut m = WebSocketManager::new("wss://x".to_string());
    m.connect("u1".to_string());
    m.handle_close(1, 1006);
    assert_eq!(m.get_connection_state(), ConnectionState::Reconnecting);
    let eff = m.disconnect();
    // no transport is live while reconnecting, so nothing to close
    assert!(eff.commands.is_empty());
    let eff = m.handle_timer(1);
    assert!(eff.commands.is_empty() && eff.events.is_empty());
    assert_eq!(m.get_connection_state(), ConnectionState::Disconnected);
}

#[test]
fn inbound_frame_is_dispatched_in_order() {
    let mut m = WebSocketManager::new("wss://x".to_string());
    m.connect("u1".to_string());
    m.handle_open(1, 5);
    let first = m.handle_frame(1, "{\"type\":\"UserPresence\",\"userId\":\"ana\",\"status\":\"online\"}");
    let second = m.handle_frame(1, "{\"type\":\"Error\",\"code\":\"E\",\"message\":\"m\"}");
    assert_eq!(first.len(), 1);
    assert_eq!(second.len(), 1);
    assert!(matches!(&first[0], Notification::MessageReceived(Message::UserPresence { .. })));
    assert!(matches!(&second[0], Notification::MessageReceived(Message::Error { .. })));
}

#[test]
fn decode_failure_is_reported_and_does_not_move_the_state() {
    let mut m = WebSocketManager::new("wss://x".to_string());
    m.connect("u1".to_string());
    m.handle_open(1, 5);
    let before = m.get_connection_state();
    let events = m.handle_frame(1, "{\"type\":\"Ping\"}");
    assert_eq!(
        events,
        vec![Notification::DecodeFailure {
            kind: DecodeError::UnknownVariant,
            detail: "{\"type\":\"Ping\"}".to_string(),
        }]
    );
    let events = m.handle_frame(1, "garbage");
    assert_eq!(
        events,
        vec![Notification::DecodeFailure {
            kind: DecodeError::MalformedPayload,
            detail: "garbage".to_string(),
        }]
    );
    assert_eq!(m.get_connection_state(), before);
}

#[test]
fn frame_of_superseded_transport_is_dropped() {
    let mut m = WebSocketManager::new("wss://x".to_string());
    m.connect("u1".to_string());
    let events = m.handle_frame(0, "{\"type\":\"Error\",\"code\":\"E\",\"message\":\"m\"}");
    assert!(events.is_empty());
}

#[test]
fn transport_error_is_reported_without_state_change() {
    let mut m = WebSocketManager::new("wss://x".to_string());
    m.connect("u1".to_string());
    let events = m.handle_transport_error(1, "socket error".to_string());
    assert_eq!(
        events,
        vec![Notification::TransportError { detail: "socket error".to_string() }]
    );
    assert_eq!(m.get_connection_state(), ConnectionState::Connecting);
    let events = m.handle_transport_error(0, "old socket".to_string());
    assert!(events.is_empty());
}

#[test]
fn reconfigure_policy_takes_effect_on_next_decision() {
    let mut m = WebSocketManager::new("wss://x".to_string());
    m.set_reconnect_options(true, 250, 1);
    m.connect("u1".to_string());
    let eff = m.handle_close(1, 1006);
    match &eff.commands[0] {
        Command::ScheduleRetry { delay_ms, .. } => assert_eq!(*delay_ms, 250),
        other => panic!("expected ScheduleRetry, got {other:?}"),
    }
    m.handle_timer(1);
    let eff = m.handle_close(2, 1006);
    assert!(matches!(m.get_connection_state(), ConnectionState::Failed(_)));
    assert!(eff.commands.is_empty());
}
