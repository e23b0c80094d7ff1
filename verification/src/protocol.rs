//! The wire message protocol: the closed, tagged union of messages exchanged
//! over the transport, and the error taxonomy of the codec and of the send
//! path.

use vstd::prelude::*;

verus! {

/// Presence reported for a user in a `UserPresence` frame.
#[derive(Debug, Clone, Copy, PartialEq, Eq, Structural)]
pub enum PresenceStatus {
    Online,
    Away,
    Offline,
}

/// One wire message. Each variant carries exactly the fields relevant to its
/// purpose; a frame always holds exactly one complete message.
#[derive(Debug, Clone, PartialEq, Eq)]
#[allow(inconsistent_fields)]
pub enum Message {
    /// A chat line, sent in either direction.
    ChatMessage { id: String, content: String, user_id: String, timestamp: u64 },
    /// A typing indicator, sent in either direction.
    UserTyping { user_id: String, is_typing: bool },
    /// Sent by the client right after the transport opens, carrying the fresh
    /// session id.
    Connected { user_id: String, session_id: String },
    /// Inbound presence change for some user.
    UserPresence { user_id: String, status: PresenceStatus },
    /// Inbound acknowledgement of an application message, correlated by the
    /// application-supplied message id.
    ServerResponse { message_id: String, status: String, data: Option<String> },
    /// Inbound error report from the backend.
    Error { code: String, message: String },
}

/// The mathematical value of a [`Message`]: the same shape over `Seq<char>`.
#[allow(inconsistent_fields)]
pub enum MessageV {
    ChatMessage { id: Seq<char>, content: Seq<char>, user_id: Seq<char>, timestamp: u64 },
    UserTyping { user_id: Seq<char>, is_typing: bool },
    Connected { user_id: Seq<char>, session_id: Seq<char> },
    UserPresence { user_id: Seq<char>, status: PresenceStatus },
    ServerResponse { message_id: Seq<char>, status: Seq<char>, data: Option<Seq<char>> },
    Error { code: Seq<char>, message: Seq<char> },
}

impl View for Message {
    type V = MessageV;

    open spec fn view(&self) -> MessageV {
        match *self {
            Message::ChatMessage { ref id, ref content, ref user_id, timestamp } => {
                MessageV::ChatMessage {
                    id: id@,
                    content: content@,
                    user_id: user_id@,
                    timestamp,
                }
            },
            Message::UserTyping { ref user_id, is_typing } => {
                MessageV::UserTyping { user_id: user_id@, is_typing }
            },
            Message::Connected { ref user_id, ref session_id } => {
                MessageV::Connected { user_id: user_id@, session_id: session_id@ }
            },
            Message::UserPresence { ref user_id, status } => {
                MessageV::UserPresence { user_id: user_id@, status }
            },
            Message::ServerResponse { ref message_id, ref status, ref data } => {
                MessageV::ServerResponse {
                    message_id: message_id@,
                    status: status@,
                    data: match *data {
                        Option::Some(ref d) => Option::Some(d@),
                        Option::None => Option::None,
                    },
                }
            },
            Message::Error { ref code, ref message } => {
                MessageV::Error { code: code@, message: message@ }
            },
        }
    }
}

/// Why a frame was rejected by the decoder. A decode failure never touches
/// the connection state: the frame is dropped and the error is reported.
#[derive(Debug, Clone, Copy, PartialEq, Eq, Structural)]
pub enum DecodeError {
    /// The text is not a canonical frame of any variant.
    MalformedPayload,
    /// The text carries a readable discriminant that names no known variant.
    UnknownVariant,
}

/// Why a send was refused: the connection is not currently open.
#[derive(Debug, Clone, Copy, PartialEq, Eq, Structural)]
pub enum SendError {
    NotConnected,
}

} // verus!
