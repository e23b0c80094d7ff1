//! Real-time connection core for an embeddable chat widget: the wire message
//! protocol (a canonical JSON frame per message, with a proved round-trip)
//! and the connection manager's state machine (connect, send gating,
//! reconnection policy, observer event ordering).

pub mod chars;
pub mod codec;
pub mod decimal;
pub mod jstring;
pub mod manager;
pub mod protocol;
pub mod responses;
