//! The wire format of a frame: one canonical JSON object per message, with
//! a `"type"` discriminant field and exactly the fields of the variant, in a
//! fixed order. [`encode`] writes that form; [`decode`] reads exactly that
//! form back, rejecting an unknown discriminant as `UnknownVariant` and
//! everything else that is not a canonical frame as `MalformedPayload`.

use vstd::prelude::*;
use crate::chars::{chars_to_string, str_to_chars, push_all, chars_eq, lemma_char_eq_by_code};
use crate::decimal::{dec_of, parse_dec, push_dec, parse_dec_exec, is_digit, lemma_parse_dec_of};
use crate::jstring::{
    escape_seq,
    parse_jstr,
    push_escaped,
    parse_jstr_exec,
    is_raw,
    lemma_escape_plain,
    lemma_parse_escape_seq,
    lemma_parse_jstr_sound,
};
use crate::protocol::{Message, MessageV, DecodeError, PresenceStatus};

verus! {

// ---------------------------------------------------------------------------
// The fixed pieces of a frame.
// ---------------------------------------------------------------------------
pub open spec fn lit_head() -> Seq<char> {
    seq!['{', '"', 't', 'y', 'p', 'e', '"', ':', '"']
}

pub open spec fn tag_chat() -> Seq<char> {
    seq!['C', 'h', 'a', 't', 'M', 'e', 's', 's', 'a', 'g', 'e']
}

pub open spec fn tag_typing() -> Seq<char> {
    seq!['U', 's', 'e', 'r', 'T', 'y', 'p', 'i', 'n', 'g']
}

pub open spec fn tag_connected() -> Seq<char> {
    seq!['C', 'o', 'n', 'n', 'e', 'c', 't', 'e', 'd']
}

pub open spec fn tag_presence() -> Seq<char> {
    seq!['U', 's', 'e', 'r', 'P', 'r', 'e', 's', 'e', 'n', 'c', 'e']
}

pub open spec fn tag_server() -> Seq<char> {
    seq!['S', 'e', 'r', 'v', 'e', 'r', 'R', 'e', 's', 'p', 'o', 'n', 's', 'e']
}

pub open spec fn tag_error() -> Seq<char> {
    seq!['E', 'r', 'r', 'o', 'r']
}

pub open spec fn key_id() -> Seq<char> {
    seq![',', '"', 'i', 'd', '"', ':', '"']
}

pub open spec fn key_content() -> Seq<char> {
    seq![',', '"', 'c', 'o', 'n', 't', 'e', 'n', 't', '"', ':', '"']
}

pub open spec fn key_user_id() -> Seq<char> {
    seq![',', '"', 'u', 's', 'e', 'r', 'I', 'd', '"', ':', '"']
}

pub open spec fn key_timestamp() -> Seq<char> {
    seq![',', '"', 't', 'i', 'm', 'e', 's', 't', 'a', 'm', 'p', '"', ':']
}

pub open spec fn key_is_typing() -> Seq<char> {
    seq![',', '"', 'i', 's', 'T', 'y', 'p', 'i', 'n', 'g', '"', ':']
}

pub open spec fn key_session_id() -> Seq<char> {
    seq![',', '"', 's', 'e', 's', 's', 'i', 'o', 'n', 'I', 'd', '"', ':', '"']
}

pub open spec fn key_status() -> Seq<char> {
    seq![',', '"', 's', 't', 'a', 't', 'u', 's', '"', ':', '"']
}

pub open spec fn key_message_id() -> Seq<char> {
    seq![',', '"', 'm', 'e', 's', 's', 'a', 'g', 'e', 'I', 'd', '"', ':', '"']
}

pub open spec fn key_data() -> Seq<char> {
    seq![',', '"', 'd', 'a', 't', 'a', '"', ':']
}

pub open spec fn key_code() -> Seq<char> {
    seq![',', '"', 'c', 'o', 'd', 'e', '"', ':', '"']
}

pub open spec fn key_message() -> Seq<char> {
    seq![',', '"', 'm', 'e', 's', 's', 'a', 'g', 'e', '"', ':', '"']
}

pub open spec fn lit_true() -> Seq<char> {
    seq!['t', 'r', 'u', 'e']
}

pub open spec fn lit_false() -> Seq<char> {
    seq!['f', 'a', 'l', 's', 'e']
}

pub open spec fn lit_null() -> Seq<char> {
    seq!['n', 'u', 'l', 'l']
}

pub open spec fn lit_online() -> Seq<char> {
    seq!['o', 'n', 'l', 'i', 'n', 'e']
}

pub open spec fn lit_away() -> Seq<char> {
    seq!['a', 'w', 'a', 'y']
}

pub open spec fn lit_offline() -> Seq<char> {
    seq!['o', 'f', 'f', 'l', 'i', 'n', 'e']
}

/// The word a presence status is written as.
pub open spec fn status_chars(st: PresenceStatus) -> Seq<char> {
    match st {
        PresenceStatus::Online => lit_online(),
        PresenceStatus::Away => lit_away(),
        PresenceStatus::Offline => lit_offline(),
    }
}

/// A string field's spelling from its opening quote having already been
/// written: the escaped body and the closing quote.
pub open spec fn quoted(s: Seq<char>) -> Seq<char> {
    escape_seq(s) + seq!['"']
}

// ---------------------------------------------------------------------------
// The canonical frame of each message.
// ---------------------------------------------------------------------------
/// The one canonical frame that carries `m`.
pub open spec fn encode_spec(m: MessageV) -> Seq<char> {
    match m {
        MessageV::ChatMessage { id, content, user_id, timestamp } => lit_head() + tag_chat()
            + seq!['"'] + key_id() + quoted(id) + key_content() + quoted(content) + key_user_id()
            + quoted(user_id) + key_timestamp() + dec_of(timestamp as nat) + seq!['}'],
        MessageV::UserTyping { user_id, is_typing } => lit_head() + tag_typing() + seq!['"']
            + key_user_id() + quoted(user_id) + key_is_typing() + (if is_typing {
            lit_true()
        } else {
            lit_false()
        }) + seq!['}'],
        MessageV::Connected { user_id, session_id } => lit_head() + tag_connected() + seq!['"']
            + key_user_id() + quoted(user_id) + key_session_id() + quoted(session_id) + seq!['}'],
        MessageV::UserPresence { user_id, status } => lit_head() + tag_presence() + seq!['"']
            + key_user_id() + quoted(user_id) + key_status() + status_chars(status) + seq!['"']
            + seq!['}'],
        MessageV::ServerResponse { message_id, status, data } => lit_head() + tag_server()
            + seq!['"'] + key_message_id() + quoted(message_id) + key_status() + quoted(status)
            + key_data() + (match data {
            Some(d) => seq!['"'] + quoted(d),
            None => lit_null(),
        }) + seq!['}'],
        MessageV::Error { code, message } => lit_head() + tag_error() + seq!['"'] + key_code()
            + quoted(code) + key_message() + quoted(message) + seq!['}'],
    }
}

// ---------------------------------------------------------------------------
// Reading a frame back.
// ---------------------------------------------------------------------------
/// Consumes the exact characters of `lit` off the front of `s`.
pub open spec fn eat(s: Seq<char>, lit: Seq<char>) -> Option<Seq<char>> {
    if lit.len() <= s.len() && s.subrange(0, lit.len() as int) == lit {
        Some(s.skip(lit.len() as int))
    } else {
        None
    }
}

/// The fields of a `ChatMessage` frame after its discriminant.
pub open spec fn dec_chat(s: Seq<char>) -> Result<MessageV, DecodeError> {
    match eat(s, key_id()) {
        None => Err(DecodeError::MalformedPayload),
        Some(r) => match parse_jstr(r) {
            None => Err(DecodeError::MalformedPayload),
            Some(p_id) => match eat(p_id.1, key_content()) {
                None => Err(DecodeError::MalformedPayload),
                Some(r) => match parse_jstr(r) {
                    None => Err(DecodeError::MalformedPayload),
                    Some(p_ct) => match eat(p_ct.1, key_user_id()) {
                        None => Err(DecodeError::MalformedPayload),
                        Some(r) => match parse_jstr(r) {
                            None => Err(DecodeError::MalformedPayload),
                            Some(p_u) => match eat(p_u.1, key_timestamp()) {
                                None => Err(DecodeError::MalformedPayload),
                                Some(r) => match parse_dec(r) {
                                    None => Err(DecodeError::MalformedPayload),
                                    Some(p_t) => if p_t.1 == seq!['}'] {
                                        Ok(
                                            MessageV::ChatMessage {
                                                id: p_id.0,
                                                content: p_ct.0,
                                                user_id: p_u.0,
                                                timestamp: p_t.0,
                                            },
                                        )
                                    } else {
                                        Err(DecodeError::MalformedPayload)
                                    },
                                },
                            },
                        },
                    },
                },
            },
        },
    }
}

/// The fields of a `UserTyping` frame after its discriminant.
pub open spec fn dec_typing(s: Seq<char>) -> Result<MessageV, DecodeError> {
    match eat(s, key_user_id()) {
        None => Err(DecodeError::MalformedPayload),
        Some(r) => match parse_jstr(r) {
            None => Err(DecodeError::MalformedPayload),
            Some(p_u) => match eat(p_u.1, key_is_typing()) {
                None => Err(DecodeError::MalformedPayload),
                Some(r) => {
                    let (b, r2) = if eat(r, lit_true()) is Some {
                        (true, eat(r, lit_true())->Some_0)
                    } else if eat(r, lit_false()) is Some {
                        (false, eat(r, lit_false())->Some_0)
                    } else {
                        (false, r)
                    };
                    if eat(r, lit_true()) is None && eat(r, lit_false()) is None {
                        Err(DecodeError::MalformedPayload)
                    } else if r2 == seq!['}'] {
                        Ok(MessageV::UserTyping { user_id: p_u.0, is_typing: b })
                    } else {
                        Err(DecodeError::MalformedPayload)
                    }
                },
            },
        },
    }
}

/// The fields of a `Connected` frame after its discriminant.
pub open spec fn dec_connected(s: Seq<char>) -> Result<MessageV, DecodeError> {
    match eat(s, key_user_id()) {
        None => Err(DecodeError::MalformedPayload),
        Some(r) => match parse_jstr(r) {
            None => Err(DecodeError::MalformedPayload),
            Some(p_u) => match eat(p_u.1, key_session_id()) {
                None => Err(DecodeError::MalformedPayload),
                Some(r) => match parse_jstr(r) {
                    None => Err(DecodeError::MalformedPayload),
                    Some(p_s) => if p_s.1 == seq!['}'] {
                        Ok(MessageV::Connected { user_id: p_u.0, session_id: p_s.0 })
                    } else {
                        Err(DecodeError::MalformedPayload)
                    },
                },
            },
        },
    }
}

/// The fields of a `UserPresence` frame after its discriminant.
pub open spec fn dec_presence(s: Seq<char>) -> Result<MessageV, DecodeError> {
    match eat(s, key_user_id()) {
        None => Err(DecodeError::MalformedPayload),
        Some(r) => match parse_jstr(r) {
            None => Err(DecodeError::MalformedPayload),
            Some(p_u) => match eat(p_u.1, key_status()) {
                None => Err(DecodeError::MalformedPayload),
                Some(r) => match parse_jstr(r) {
                    None => Err(DecodeError::MalformedPayload),
                    Some(p_s) => if p_s.1 != seq!['}'] {
                        Err(DecodeError::MalformedPayload)
                    } else if p_s.0 == lit_online() {
                        Ok(
                            MessageV::UserPresence {
                                user_id: p_u.0,
                                status: PresenceStatus::Online,
                            },
                        )
                    } else if p_s.0 == lit_away() {
                        Ok(MessageV::UserPresence { user_id: p_u.0, status: PresenceStatus::Away })
                    } else if p_s.0 == lit_offline() {
                        Ok(
                            MessageV::UserPresence {
                                user_id: p_u.0,
                                status: PresenceStatus::Offline,
                            },
                        )
                    } else {
                        Err(DecodeError::MalformedPayload)
                    },
                },
            },
        },
    }
}

/// The fields of a `ServerResponse` frame after its discriminant.
pub open spec fn dec_server(s: Seq<char>) -> Result<MessageV, DecodeError> {
    match eat(s, key_message_id()) {
        None => Err(DecodeError::MalformedPayload),
        Some(r) => match parse_jstr(r) {
            None => Err(DecodeError::MalformedPayload),
            Some(p_m) => match eat(p_m.1, key_status()) {
                None => Err(DecodeError::MalformedPayload),
                Some(r) => match parse_jstr(r) {
                    None => Err(DecodeError::MalformedPayload),
                    Some(p_s) => match eat(p_s.1, key_data()) {
                        None => Err(DecodeError::MalformedPayload),
                        Some(r) => match eat(r, seq!['"']) {
                            Some(r2) => match parse_jstr(r2) {
                                None => Err(DecodeError::MalformedPayload),
                                Some(p_d) => if p_d.1 == seq!['}'] {
                                    Ok(
                                        MessageV::ServerResponse {
                                            message_id: p_m.0,
                                            status: p_s.0,
                                            data: Some(p_d.0),
                                        },
                                    )
                                } else {
                                    Err(DecodeError::MalformedPayload)
                                },
                            },
                            None => match eat(r, lit_null()) {
                                None => Err(DecodeError::MalformedPayload),
                                Some(r2) => if r2 == seq!['}'] {
                                    Ok(
                                        MessageV::ServerResponse {
                                            message_id: p_m.0,
                                            status: p_s.0,
                                            data: None,
                                        },
                                    )
                                } else {
                                    Err(DecodeError::MalformedPayload)
                                },
                            },
                        },
                    },
                },
            },
        },
    }
}

/// The fields of an `Error` frame after its discriminant.
pub open spec fn dec_error(s: Seq<char>) -> Result<MessageV, DecodeError> {
    match eat(s, key_code()) {
        None => Err(DecodeError::MalformedPayload),
        Some(r) => match parse_jstr(r) {
            None => Err(DecodeError::MalformedPayload),
            Some(p_c) => match eat(p_c.1, key_message()) {
                None => Err(DecodeError::MalformedPayload),
                Some(r) => match parse_jstr(r) {
                    None => Err(DecodeError::MalformedPayload),
                    Some(p_m) => if p_m.1 == seq!['}'] {
                        Ok(MessageV::Error { code: p_c.0, message: p_m.0 })
                    } else {
                        Err(DecodeError::MalformedPayload)
                    },
                },
            },
        },
    }
}

/// What any text decodes to: the message of the canonical frame it is, or
/// the error it is rejected with. `UnknownVariant` is decided by the
/// discriminant alone; once the discriminant reads as an unknown tag the
/// remainder of the text is not inspected.
pub open spec fn decode_spec(s: Seq<char>) -> Result<MessageV, DecodeError> {
    match eat(s, lit_head()) {
        None => Err(DecodeError::MalformedPayload),
        Some(r) => match parse_jstr(r) {
            None => Err(DecodeError::MalformedPayload),
            Some(p) => {
                if p.0 == tag_chat() {
                    dec_chat(p.1)
                } else if p.0 == tag_typing() {
                    dec_typing(p.1)
                } else if p.0 == tag_connected() {
                    dec_connected(p.1)
                } else if p.0 == tag_presence() {
                    dec_presence(p.1)
                } else if p.0 == tag_server() {
                    dec_server(p.1)
                } else if p.0 == tag_error() {
                    dec_error(p.1)
                } else {
                    Err(DecodeError::UnknownVariant)
                }
            },
        },
    }
}

// ---------------------------------------------------------------------------
// The encoder.
// ---------------------------------------------------------------------------
/// Appends a string field's spelling: the escaped body and the closing
/// quote.
fn push_quoted(out: &mut Vec<char>, s: &str)
    ensures
        final(out)@ == old(out)@ + quoted(s@),
{
    let v = str_to_chars(s);
    push_escaped(out, &v);
    out.push('"');
    assert(out@ =~= old(out)@ + quoted(s@));
}

/// Writes the one canonical frame that carries `m`.
pub fn encode(m: &Message) -> (r: String)
    ensures
        r@ == encode_spec(m@),
{
    let mut out: Vec<char> = Vec::new();
    let head = vec!['{', '"', 't', 'y', 'p', 'e', '"', ':', '"'];
    assert(head@ =~= lit_head());
    push_all(&mut out, &head);
    match m {
        Message::ChatMessage { id, content, user_id, timestamp } => {
            let tag = vec!['C', 'h', 'a', 't', 'M', 'e', 's', 's', 'a', 'g', 'e', '"'];
            assert(tag@ =~= tag_chat() + seq!['"']);
            push_all(&mut out, &tag);
            let k1 = vec![',', '"', 'i', 'd', '"', ':', '"'];
            assert(k1@ =~= key_id());
            push_all(&mut out, &k1);
            push_quoted(&mut out, id.as_str());
            let k2 = vec![',', '"', 'c', 'o', 'n', 't', 'e', 'n', 't', '"', ':', '"'];
            assert(k2@ =~= key_content());
            push_all(&mut out, &k2);
            push_quoted(&mut out, content.as_str());
            let k3 = vec![',', '"', 'u', 's', 'e', 'r', 'I', 'd', '"', ':', '"'];
            assert(k3@ =~= key_user_id());
            push_all(&mut out, &k3);
            push_quoted(&mut out, user_id.as_str());
            let k4 = vec![',', '"', 't', 'i', 'm', 'e', 's', 't', 'a', 'm', 'p', '"', ':'];
            assert(k4@ =~= key_timestamp());
            push_all(&mut out, &k4);
            push_dec(&mut out, *timestamp);
            out.push('}');
            assert(out@ =~= encode_spec(m@));
        },
        Message::UserTyping { user_id, is_typing } => {
            let tag = vec!['U', 's', 'e', 'r', 'T', 'y', 'p', 'i', 'n', 'g', '"'];
            assert(tag@ =~= tag_typing() + seq!['"']);
            push_all(&mut out, &tag);
            let k1 = vec![',', '"', 'u', 's', 'e', 'r', 'I', 'd', '"', ':', '"'];
            assert(k1@ =~= key_user_id());
            push_all(&mut out, &k1);
            push_quoted(&mut out, user_id.as_str());
            let k2 = vec![',', '"', 'i', 's', 'T', 'y', 'p', 'i', 'n', 'g', '"', ':'];
            assert(k2@ =~= key_is_typing());
            push_all(&mut out, &k2);
            if *is_typing {
                let w = vec!['t', 'r', 'u', 'e'];
                assert(w@ =~= lit_true());
                push_all(&mut out, &w);
            } else {
                let w = vec!['f', 'a', 'l', 's', 'e'];
                assert(w@ =~= lit_false());
                push_all(&mut out, &w);
            }
            out.push('}');
            assert(out@ =~= encode_spec(m@));
        },
        Message::Connected { user_id, session_id } => {
            let tag = vec!['C', 'o', 'n', 'n', 'e', 'c', 't', 'e', 'd', '"'];
            assert(tag@ =~= tag_connected() + seq!['"']);
            push_all(&mut out, &tag);
            let k1 = vec![',', '"', 'u', 's', 'e', 'r', 'I', 'd', '"', ':', '"'];
            assert(k1@ =~= key_user_id());
            push_all(&mut out, &k1);
            push_quoted(&mut out, user_id.as_str());
            let k2 = vec![',', '"', 's', 'e', 's', 's', 'i', 'o', 'n', 'I', 'd', '"', ':', '"'];
            assert(k2@ =~= key_session_id());
            push_all(&mut out, &k2);
            push_quoted(&mut out, session_id.as_str());
            out.push('}');
            assert(out@ =~= encode_spec(m@));
        },
        Message::UserPresence { user_id, status } => {
            let tag = vec!['U', 's', 'e', 'r', 'P', 'r', 'e', 's', 'e', 'n', 'c', 'e', '"'];
            assert(tag@ =~= tag_presence() + seq!['"']);
            push_all(&mut out, &tag);
            let k1 = vec![',', '"', 'u', 's', 'e', 'r', 'I', 'd', '"', ':', '"'];
            assert(k1@ =~= key_user_id());
            push_all(&mut out, &k1);
            push_quoted(&mut out, user_id.as_str());
            let k2 = vec![',', '"', 's', 't', 'a', 't', 'u', 's', '"', ':', '"'];
            assert(k2@ =~= key_status());
            push_all(&mut out, &k2);
            match status {
                PresenceStatus::Online => {
                    let w = vec!['o', 'n', 'l', 'i', 'n', 'e'];
                    assert(w@ =~= lit_online());
                    push_all(&mut out, &w);
                },
                PresenceStatus::Away => {
                    let w = vec!['a', 'w', 'a', 'y'];
                    assert(w@ =~= lit_away());
                    push_all(&mut out, &w);
                },
                PresenceStatus::Offline => {
                    let w = vec!['o', 'f', 'f', 'l', 'i', 'n', 'e'];
                    assert(w@ =~= lit_offline());
                    push_all(&mut out, &w);
                },
            }
            out.push('"');
            out.push('}');
            assert(out@ =~= encode_spec(m@));
        },
        Message::ServerResponse { message_id, status, data } => {
            let tag = vec!['S', 'e', 'r', 'v', 'e', 'r', 'R', 'e', 's', 'p', 'o', 'n', 's', 'e',
                '"'];
            assert(tag@ =~= tag_server() + seq!['"']);
            push_all(&mut out, &tag);
            let k1 = vec![',', '"', 'm', 'e', 's', 's', 'a', 'g', 'e', 'I', 'd', '"', ':', '"'];
            assert(k1@ =~= key_message_id());
            push_all(&mut out, &k1);
            push_quoted(&mut out, message_id.as_str());
            let k2 = vec![',', '"', 's', 't', 'a', 't', 'u', 's', '"', ':', '"'];
            assert(k2@ =~= key_status());
            push_all(&mut out, &k2);
            push_quoted(&mut out, status.as_str());
            let k3 = vec![',', '"', 'd', 'a', 't', 'a', '"', ':'];
            assert(k3@ =~= key_data());
            push_all(&mut out, &k3);
            match data {
                Some(d) => {
                    out.push('"');
                    push_quoted(&mut out, d.as_str());
                },
                None => {
                    let w = vec!['n', 'u', 'l', 'l'];
                    assert(w@ =~= lit_null());
                    push_all(&mut out, &w);
                },
            }
            out.push('}');
            assert(out@ =~= encode_spec(m@));
        },
        Message::Error { code, message } => {
            let tag = vec!['E', 'r', 'r', 'o', 'r', '"'];
            assert(tag@ =~= tag_error() + seq!['"']);
            push_all(&mut out, &tag);
            let k1 = vec![',', '"', 'c', 'o', 'd', 'e', '"', ':', '"'];
            assert(k1@ =~= key_code());
            push_all(&mut out, &k1);
            push_quoted(&mut out, code.as_str());
            let k2 = vec![',', '"', 'm', 'e', 's', 's', 'a', 'g', 'e', '"', ':', '"'];
            assert(k2@ =~= key_message());
            push_all(&mut out, &k2);
            push_quoted(&mut out, message.as_str());
            out.push('}');
            assert(out@ =~= encode_spec(m@));
        },
    }
    chars_to_string(&out)
}

// ---------------------------------------------------------------------------
// The decoder.
// ---------------------------------------------------------------------------
/// Consumes the exact characters of `lit` at position `i` of `s`, per
/// [`eat`].
fn eat_exec(s: &[char], i: usize, lit: &Vec<char>) -> (r: Option<usize>)
    requires
        i <= s@.len(),
    ensures
        match r {
            Some(j) => i <= j <= s@.len() && eat(s@.skip(i as int), lit@) == Some(
                s@.skip(j as int),
            ),
            None => eat(s@.skip(i as int), lit@) == None::<Seq<char>>,
        },
{
    if s.len() - i < lit.len() {
        assert(s@.skip(i as int).len() < lit@.len());
        return None;
    }
    let mut k: usize = 0;
    while k < lit.len()
        invariant
            s@.len() <= usize::MAX,
            i + lit@.len() <= s@.len(),
            k <= lit@.len(),
            forall|t: int| 0 <= t < k ==> s@[i + t] == lit@[t],
        decreases lit@.len() - k,
    {
        assert(k < lit@.len());
        assert(i + k < s@.len());
        let a = s[i + k] as u32;
        let b = lit[k] as u32;
        if a != b {
            proof {
                assert(s@.skip(i as int).subrange(0, lit@.len() as int) != lit@) by {
                    assert(s@.skip(i as int).subrange(0, lit@.len() as int)[k as int] == s@[i + k]);
                }
            }
            return None;
        }
        proof {
            lemma_char_eq_by_code(s@[i + k], lit@[k as int]);
        }
        k = k + 1;
    }
    proof {
        assert(s@.skip(i as int).subrange(0, lit@.len() as int) =~= lit@);
        assert(s@.skip(i as int).skip(lit@.len() as int) =~= s@.skip(i + lit@.len()));
    }
    Some(i + lit.len())
}

/// The remainder at `i` is exactly the closing brace of the frame.
fn close_exec(s: &[char], i: usize) -> (r: bool)
    requires
        i <= s@.len(),
    ensures
        r == (s@.skip(i as int) == seq!['}']),
{
    if s.len() - i == 1 {
        let c = s[i] as u32;
        if c == 125 {
            proof {
                lemma_char_eq_by_code(s@[i as int], '}');
                assert(s@.skip(i as int) =~= seq!['}']);
            }
            return true;
        }
        proof {
            assert(s@.skip(i as int) != seq!['}']) by {
                assert(s@.skip(i as int)[0] == s@[i as int]);
                if s@[i as int] == '}' {
                    assert(s@[i as int] as u32 == 125);
                }
            }
        }
        false
    } else {
        assert(s@.skip(i as int).len() != 1);
        false
    }
}

/// Reads the fields of a `ChatMessage` frame, per [`dec_chat`].
fn decode_chat(s: &[char], i: usize) -> (r: Result<Message, DecodeError>)
    requires
        i <= s@.len(),
    ensures
        match r {
            Ok(m) => dec_chat(s@.skip(i as int)) == Ok::<MessageV, DecodeError>(m@),
            Err(e) => dec_chat(s@.skip(i as int)) == Err::<MessageV, DecodeError>(e),
        },
{
    let k1 = vec![',', '"', 'i', 'd', '"', ':', '"'];
    assert(k1@ =~= key_id());
    let i1 = match eat_exec(s, i, &k1) {
        Some(j) => j,
        None => {
            return Err(DecodeError::MalformedPayload);
        },
    };
    let (id_v, i2) = match parse_jstr_exec(s, i1) {
        Some(p) => p,
        None => {
            return Err(DecodeError::MalformedPayload);
        },
    };
    let k2 = vec![',', '"', 'c', 'o', 'n', 't', 'e', 'n', 't', '"', ':', '"'];
    assert(k2@ =~= key_content());
    let i3 = match eat_exec(s, i2, &k2) {
        Some(j) => j,
        None => {
            return Err(DecodeError::MalformedPayload);
        },
    };
    let (ct_v, i4) = match parse_jstr_exec(s, i3) {
        Some(p) => p,
        None => {
            return Err(DecodeError::MalformedPayload);
        },
    };
    let k3 = vec![',', '"', 'u', 's', 'e', 'r', 'I', 'd', '"', ':', '"'];
    assert(k3@ =~= key_user_id());
    let i5 = match eat_exec(s, i4, &k3) {
        Some(j) => j,
        None => {
            return Err(DecodeError::MalformedPayload);
        },
    };
    let (u_v, i6) = match parse_jstr_exec(s, i5) {
        Some(p) => p,
        None => {
            return Err(DecodeError::MalformedPayload);
        },
    };
    let k4 = vec![',', '"', 't', 'i', 'm', 'e', 's', 't', 'a', 'm', 'p', '"', ':'];
    assert(k4@ =~= key_timestamp());
    let i7 = match eat_exec(s, i6, &k4) {
        Some(j) => j,
        None => {
            return Err(DecodeError::MalformedPayload);
        },
    };
    let (ts, i8) = match parse_dec_exec(s, i7) {
        Some(p) => p,
        None => {
            return Err(DecodeError::MalformedPayload);
        },
    };
    if close_exec(s, i8) {
        Ok(
            Message::ChatMessage {
                id: chars_to_string(&id_v),
                content: chars_to_string(&ct_v),
                user_id: chars_to_string(&u_v),
                timestamp: ts,
            },
        )
    } else {
        Err(DecodeError::MalformedPayload)
    }
}

/// Reads the fields of a `UserTyping` frame, per [`dec_typing`].
fn decode_typing(s: &[char], i: usize) -> (r: Result<Message, DecodeError>)
    requires
        i <= s@.len(),
    ensures
        match r {
            Ok(m) => dec_typing(s@.skip(i as int)) == Ok::<MessageV, DecodeError>(m@),
            Err(e) => dec_typing(s@.skip(i as int)) == Err::<MessageV, DecodeError>(e),
        },
{
    let k1 = vec![',', '"', 'u', 's', 'e', 'r', 'I', 'd', '"', ':', '"'];
    assert(k1@ =~= key_user_id());
    let i1 = match eat_exec(s, i, &k1) {
        Some(j) => j,
        None => {
            return Err(DecodeError::MalformedPayload);
        },
    };
    let (u_v, i2) = match parse_jstr_exec(s, i1) {
        Some(p) => p,
        None => {
            return Err(DecodeError::MalformedPayload);
        },
    };
    let k2 = vec![',', '"', 'i', 's', 'T', 'y', 'p', 'i', 'n', 'g', '"', ':'];
    assert(k2@ =~= key_is_typing());
    let i3 = match eat_exec(s, i2, &k2) {
        Some(j) => j,
        None => {
            return Err(DecodeError::MalformedPayload);
        },
    };
    let w_true = vec!['t', 'r', 'u', 'e'];
    assert(w_true@ =~= lit_true());
    let w_false = vec!['f', 'a', 'l', 's', 'e'];
    assert(w_false@ =~= lit_false());
    let (b, i4) = match eat_exec(s, i3, &w_true) {
        Some(j) => (true, j),
        None => match eat_exec(s, i3, &w_false) {
            Some(j) => (false, j),
            None => {
                return Err(DecodeError::MalformedPayload);
            },
        },
    };
    if close_exec(s, i4) {
        Ok(Message::UserTyping { user_id: chars_to_string(&u_v), is_typing: b })
    } else {
        Err(DecodeError::MalformedPayload)
    }
}

/// Reads the fields of a `Connected` frame, per [`dec_connected`].
fn decode_connected(s: &[char], i: usize) -> (r: Result<Message, DecodeError>)
    requires
        i <= s@.len(),
    ensures
        match r {
            Ok(m) => dec_connected(s@.skip(i as int)) == Ok::<MessageV, DecodeError>(m@),
            Err(e) => dec_connected(s@.skip(i as int)) == Err::<MessageV, DecodeError>(e),
        },
{
    let k1 = vec![',', '"', 'u', 's', 'e', 'r', 'I', 'd', '"', ':', '"'];
    assert(k1@ =~= key_user_id());
    let i1 = match eat_exec(s, i, &k1) {
        Some(j) => j,
        None => {
            return Err(DecodeError::MalformedPayload);
        },
    };
    let (u_v, i2) = match parse_jstr_exec(s, i1) {
        Some(p) => p,
        None => {
            return Err(DecodeError::MalformedPayload);
        },
    };
    let k2 = vec![',', '"', 's', 'e', 's', 's', 'i', 'o', 'n', 'I', 'd', '"', ':', '"'];
    assert(k2@ =~= key_session_id());
    let i3 = match eat_exec(s, i2, &k2) {
        Some(j) => j,
        None => {
            return Err(DecodeError::MalformedPayload);
        },
    };
    let (sid_v, i4) = match parse_jstr_exec(s, i3) {
        Some(p) => p,
        None => {
            return Err(DecodeError::MalformedPayload);
        },
    };
    if close_exec(s, i4) {
        Ok(
            Message::Connected {
                user_id: chars_to_string(&u_v),
                session_id: chars_to_string(&sid_v),
            },
        )
    } else {
        Err(DecodeError::MalformedPayload)
    }
}

/// Reads the fields of a `UserPresence` frame, per [`dec_presence`].
fn decode_presence(s: &[char], i: usize) -> (r: Result<Message, DecodeError>)
    requires
        i <= s@.len(),
    ensures
        match r {
            Ok(m) => dec_presence(s@.skip(i as int)) == Ok::<MessageV, DecodeError>(m@),
            Err(e) => dec_presence(s@.skip(i as int)) == Err::<MessageV, DecodeError>(e),
        },
{
    let k1 = vec![',', '"', 'u', 's', 'e', 'r', 'I', 'd', '"', ':', '"'];
    assert(k1@ =~= key_user_id());
    let i1 = match eat_exec(s, i, &k1) {
        Some(j) => j,
        None => {
            return Err(DecodeError::MalformedPayload);
        },
    };
    let (u_v, i2) = match parse_jstr_exec(s, i1) {
        Some(p) => p,
        None => {
            return Err(DecodeError::MalformedPayload);
        },
    };
    let k2 = vec![',', '"', 's', 't', 'a', 't', 'u', 's', '"', ':', '"'];
    assert(k2@ =~= key_status());
    let i3 = match eat_exec(s, i2, &k2) {
        Some(j) => j,
        None => {
            return Err(DecodeError::MalformedPayload);
        },
    };
    let (st_v, i4) = match parse_jstr_exec(s, i3) {
        Some(p) => p,
        None => {
            return Err(DecodeError::MalformedPayload);
        },
    };
    if !close_exec(s, i4) {
        return Err(DecodeError::MalformedPayload);
    }
    let w_on = vec!['o', 'n', 'l', 'i', 'n', 'e'];
    assert(w_on@ =~= lit_online());
    let w_away = vec!['a', 'w', 'a', 'y'];
    assert(w_away@ =~= lit_away());
    let w_off = vec!['o', 'f', 'f', 'l', 'i', 'n', 'e'];
    assert(w_off@ =~= lit_offline());
    if chars_eq(&st_v, &w_on) {
        Ok(
            Message::UserPresence {
                user_id: chars_to_string(&u_v),
                status: PresenceStatus::Online,
            },
        )
    } else if chars_eq(&st_v, &w_away) {
        Ok(Message::UserPresence { user_id: chars_to_string(&u_v), status: PresenceStatus::Away })
    } else if chars_eq(&st_v, &w_off) {
        Ok(
            Message::UserPresence {
                user_id: chars_to_string(&u_v),
                status: PresenceStatus::Offline,
            },
        )
    } else {
        Err(DecodeError::MalformedPayload)
    }
}

/// Reads the fields of a `ServerResponse` frame, per [`dec_server`].
fn decode_server(s: &[char], i: usize) -> (r: Result<Message, DecodeError>)
    requires
        i <= s@.len(),
    ensures
        match r {
            Ok(m) => dec_server(s@.skip(i as int)) == Ok::<MessageV, DecodeError>(m@),
            Err(e) => dec_server(s@.skip(i as int)) == Err::<MessageV, DecodeError>(e),
        },
{
    let k1 = vec![',', '"', 'm', 'e', 's', 's', 'a', 'g', 'e', 'I', 'd', '"', ':', '"'];
    assert(k1@ =~= key_message_id());
    let i1 = match eat_exec(s, i, &k1) {
        Some(j) => j,
        None => {
            return Err(DecodeError::MalformedPayload);
        },
    };
    let (mid_v, i2) = match parse_jstr_exec(s, i1) {
        Some(p) => p,
        None => {
            return Err(DecodeError::MalformedPayload);
        },
    };
    let k2 = vec![',', '"', 's', 't', 'a', 't', 'u', 's', '"', ':', '"'];
    assert(k2@ =~= key_status());
    let i3 = match eat_exec(s, i2, &k2) {
        Some(j) => j,
        None => {
            return Err(DecodeError::MalformedPayload);
        },
    };
    let (st_v, i4) = match parse_jstr_exec(s, i3) {
        Some(p) => p,
        None => {
            return Err(DecodeError::MalformedPayload);
        },
    };
    let k3 = vec![',', '"', 'd', 'a', 't', 'a', '"', ':'];
    assert(k3@ =~= key_data());
    let i5 = match eat_exec(s, i4, &k3) {
        Some(j) => j,
        None => {
            return Err(DecodeError::MalformedPayload);
        },
    };
    let ghost r5 = s@.skip(i5 as int);
    let is_quote = if i5 < s.len() {
        s[i5] as u32 == 34
    } else {
        false
    };
    if is_quote {
        proof {
            lemma_char_eq_by_code(s@[i5 as int], '"');
            assert(r5.subrange(0, 1) =~= seq![s@[i5 as int]]);
            assert(r5.subrange(0, 1) =~= seq!['"']);
            assert(r5.skip(1) =~= s@.skip(i5 + 1));
            assert(eat(r5, seq!['"']) == Some(s@.skip(i5 + 1)));
        }
        let (d_v, i6) = match parse_jstr_exec(s, i5 + 1) {
            Some(p) => p,
            None => {
                return Err(DecodeError::MalformedPayload);
            },
        };
        if close_exec(s, i6) {
            Ok(
                Message::ServerResponse {
                    message_id: chars_to_string(&mid_v),
                    status: chars_to_string(&st_v),
                    data: Some(chars_to_string(&d_v)),
                },
            )
        } else {
            Err(DecodeError::MalformedPayload)
        }
    } else {
        proof {
            assert(eat(r5, seq!['"']) == None::<Seq<char>>) by {
                if i5 < s@.len() {
                    assert(s@[i5 as int] as u32 != 34);
                    assert(s@[i5 as int] != '"');
                    assert(r5.subrange(0, 1) =~= seq![s@[i5 as int]]);
                    assert(r5.subrange(0, 1) != seq!['"']) by {
                        assert(seq![s@[i5 as int]][0] == s@[i5 as int]);
                        assert(seq!['"'][0] == '"');
                    }
                } else {
                    assert(r5.len() == 0);
                }
            }
        }
        let w_null = vec!['n', 'u', 'l', 'l'];
        assert(w_null@ =~= lit_null());
        let i6 = match eat_exec(s, i5, &w_null) {
            Some(j) => j,
            None => {
                return Err(DecodeError::MalformedPayload);
            },
        };
        if close_exec(s, i6) {
            Ok(
                Message::ServerResponse {
                    message_id: chars_to_string(&mid_v),
                    status: chars_to_string(&st_v),
                    data: None,
                },
            )
        } else {
            Err(DecodeError::MalformedPayload)
        }
    }
}

/// Reads the fields of an `Error` frame, per [`dec_error`].
fn decode_error(s: &[char], i: usize) -> (r: Result<Message, DecodeError>)
    requires
        i <= s@.len(),
    ensures
        match r {
            Ok(m) => dec_error(s@.skip(i as int)) == Ok::<MessageV, DecodeError>(m@),
            Err(e) => dec_error(s@.skip(i as int)) == Err::<MessageV, DecodeError>(e),
        },
{
    let k1 = vec![',', '"', 'c', 'o', 'd', 'e', '"', ':', '"'];
    assert(k1@ =~= key_code());
    let i1 = match eat_exec(s, i, &k1) {
        Some(j) => j,
        None => {
            return Err(DecodeError::MalformedPayload);
        },
    };
    let (c_v, i2) = match parse_jstr_exec(s, i1) {
        Some(p) => p,
        None => {
            return Err(DecodeError::MalformedPayload);
        },
    };
    let k2 = vec![',', '"', 'm', 'e', 's', 's', 'a', 'g', 'e', '"', ':', '"'];
    assert(k2@ =~= key_message());
    let i3 = match eat_exec(s, i2, &k2) {
        Some(j) => j,
        None => {
            return Err(DecodeError::MalformedPayload);
        },
    };
    let (m_v, i4) = match parse_jstr_exec(s, i3) {
        Some(p) => p,
        None => {
            return Err(DecodeError::MalformedPayload);
        },
    };
    if close_exec(s, i4) {
        Ok(Message::Error { code: chars_to_string(&c_v), message: chars_to_string(&m_v) })
    } else {
        Err(DecodeError::MalformedPayload)
    }
}

/// Reads a frame back into the message it carries, per [`decode_spec`]: the
/// unique message whose canonical frame is `text`, or `UnknownVariant` for a
/// readable but unknown discriminant, or `MalformedPayload` for anything
/// else.
pub fn decode(text: &str) -> (r: Result<Message, DecodeError>)
    ensures
        match r {
            Ok(m) => decode_spec(text@) == Ok::<MessageV, DecodeError>(m@),
            Err(e) => decode_spec(text@) == Err::<MessageV, DecodeError>(e),
        },
{
    let cs = str_to_chars(text);
    let s = cs.as_slice();
    assert(s@ == text@);
    assert(s@.skip(0) =~= s@);
    let head = vec!['{', '"', 't', 'y', 'p', 'e', '"', ':', '"'];
    assert(head@ =~= lit_head());
    let i0 = match eat_exec(s, 0, &head) {
        Some(j) => j,
        None => {
            return Err(DecodeError::MalformedPayload);
        },
    };
    let (tag_v, i1) = match parse_jstr_exec(s, i0) {
        Some(p) => p,
        None => {
            return Err(DecodeError::MalformedPayload);
        },
    };
    let t_chat = vec!['C', 'h', 'a', 't', 'M', 'e', 's', 's', 'a', 'g', 'e'];
    assert(t_chat@ =~= tag_chat());
    if chars_eq(&tag_v, &t_chat) {
        return decode_chat(s, i1);
    }
    let t_typing = vec!['U', 's', 'e', 'r', 'T', 'y', 'p', 'i', 'n', 'g'];
    assert(t_typing@ =~= tag_typing());
    if chars_eq(&tag_v, &t_typing) {
        return decode_typing(s, i1);
    }
    let t_conn = vec!['C', 'o', 'n', 'n', 'e', 'c', 't', 'e', 'd'];
    assert(t_conn@ =~= tag_connected());
    if chars_eq(&tag_v, &t_conn) {
        return decode_connected(s, i1);
    }
    let t_pres = vec!['U', 's', 'e', 'r', 'P', 'r', 'e', 's', 'e', 'n', 'c', 'e'];
    assert(t_pres@ =~= tag_presence());
    if chars_eq(&tag_v, &t_pres) {
        return decode_presence(s, i1);
    }
    let t_srv = vec!['S', 'e', 'r', 'v', 'e', 'r', 'R', 'e', 's', 'p', 'o', 'n', 's', 'e'];
    assert(t_srv@ =~= tag_server());
    if chars_eq(&tag_v, &t_srv) {
        return decode_server(s, i1);
    }
    let t_err = vec!['E', 'r', 'r', 'o', 'r'];
    assert(t_err@ =~= tag_error());
    if chars_eq(&tag_v, &t_err) {
        return decode_error(s, i1);
    }
    Err(DecodeError::UnknownVariant)
}

// ---------------------------------------------------------------------------
// The round trip.
// ---------------------------------------------------------------------------
proof fn lemma_eat_concat(lit: Seq<char>, b: Seq<char>)
    ensures
        eat(lit + b, lit) == Some(b),
{
    assert((lit + b).subrange(0, lit.len() as int) =~= lit);
    assert((lit + b).skip(lit.len() as int) =~= b);
}

/// The discriminants and status words contain no character that needs an
/// escape, so they are spelled as themselves inside their quotes.
proof fn lemma_plain_words()
    ensures
        escape_seq(tag_chat()) == tag_chat(),
        escape_seq(tag_typing()) == tag_typing(),
        escape_seq(tag_connected()) == tag_connected(),
        escape_seq(tag_presence()) == tag_presence(),
        escape_seq(tag_server()) == tag_server(),
        escape_seq(tag_error()) == tag_error(),
        escape_seq(lit_online()) == lit_online(),
        escape_seq(lit_away()) == lit_away(),
        escape_seq(lit_offline()) == lit_offline(),
{
    assert(is_raw('C') && is_raw('h') && is_raw('a') && is_raw('t') && is_raw('M') && is_raw('e')
        && is_raw('s') && is_raw('g') && is_raw('U') && is_raw('r') && is_raw('T') && is_raw('y')
        && is_raw('p') && is_raw('i') && is_raw('n') && is_raw('o') && is_raw('c') && is_raw('d')
        && is_raw('P') && is_raw('S') && is_raw('v') && is_raw('E') && is_raw('l') && is_raw('w')
        && is_raw('f'));
    assert(forall|i: int| 0 <= i < tag_chat().len() ==> is_raw(#[trigger] tag_chat()[i]));
    lemma_escape_plain(tag_chat());
    assert(forall|i: int| 0 <= i < tag_typing().len() ==> is_raw(#[trigger] tag_typing()[i]));
    lemma_escape_plain(tag_typing());
    assert(forall|i: int| 0 <= i < tag_connected().len() ==> is_raw(
        #[trigger] tag_connected()[i],
    ));
    lemma_escape_plain(tag_connected());
    assert(forall|i: int| 0 <= i < tag_presence().len() ==> is_raw(#[trigger] tag_presence()[i]));
    lemma_escape_plain(tag_presence());
    assert(forall|i: int| 0 <= i < tag_server().len() ==> is_raw(#[trigger] tag_server()[i]));
    lemma_escape_plain(tag_server());
    assert(forall|i: int| 0 <= i < tag_error().len() ==> is_raw(#[trigger] tag_error()[i]));
    lemma_escape_plain(tag_error());
    assert(forall|i: int| 0 <= i < lit_online().len() ==> is_raw(#[trigger] lit_online()[i]));
    lemma_escape_plain(lit_online());
    assert(forall|i: int| 0 <= i < lit_away().len() ==> is_raw(#[trigger] lit_away()[i]));
    lemma_escape_plain(lit_away());
    assert(forall|i: int| 0 <= i < lit_offline().len() ==> is_raw(#[trigger] lit_offline()[i]));
    lemma_escape_plain(lit_offline());
}

#[verifier::rlimit(100)]
proof fn lemma_rt_chat(id: Seq<char>, content: Seq<char>, user_id: Seq<char>, timestamp: u64)
    ensures
        decode_spec(encode_spec(MessageV::ChatMessage { id, content, user_id, timestamp }))
            == Ok::<MessageV, DecodeError>(
            MessageV::ChatMessage { id, content, user_id, timestamp },
        ),
{
    let m = MessageV::ChatMessage { id, content, user_id, timestamp };
    let s = encode_spec(m);
    let t_ts = dec_of(timestamp as nat) + seq!['}'];
    let t_kts = key_timestamp() + t_ts;
    let t_u = escape_seq(user_id) + seq!['"'] + t_kts;
    let t_ku = key_user_id() + t_u;
    let t_ct = escape_seq(content) + seq!['"'] + t_ku;
    let t_kct = key_content() + t_ct;
    let t_id = escape_seq(id) + seq!['"'] + t_kct;
    let t_kid = key_id() + t_id;
    let t_tag = escape_seq(tag_chat()) + seq!['"'] + t_kid;
    lemma_plain_words();
    assert(s =~= lit_head() + t_tag);
    lemma_eat_concat(lit_head(), t_tag);
    lemma_parse_escape_seq(tag_chat(), t_kid);
    lemma_eat_concat(key_id(), t_id);
    lemma_parse_escape_seq(id, t_kct);
    lemma_eat_concat(key_content(), t_ct);
    lemma_parse_escape_seq(content, t_ku);
    lemma_eat_concat(key_user_id(), t_u);
    lemma_parse_escape_seq(user_id, t_kts);
    lemma_eat_concat(key_timestamp(), t_ts);
    assert(!is_digit('}'));
    lemma_parse_dec_of(timestamp, seq!['}']);
}

#[verifier::rlimit(100)]
proof fn lemma_rt_typing(user_id: Seq<char>, is_typing: bool)
    ensures
        decode_spec(encode_spec(MessageV::UserTyping { user_id, is_typing })) == Ok::<
            MessageV,
            DecodeError,
        >(MessageV::UserTyping { user_id, is_typing }),
{
    let m = MessageV::UserTyping { user_id, is_typing };
    let s = encode_spec(m);
    let word = if is_typing {
        lit_true()
    } else {
        lit_false()
    };
    let t_b = word + seq!['}'];
    let t_kb = key_is_typing() + t_b;
    let t_u = escape_seq(user_id) + seq!['"'] + t_kb;
    let t_ku = key_user_id() + t_u;
    let t_tag = escape_seq(tag_typing()) + seq!['"'] + t_ku;
    lemma_plain_words();
    assert(s =~= lit_head() + t_tag);
    lemma_eat_concat(lit_head(), t_tag);
    lemma_parse_escape_seq(tag_typing(), t_ku);
    assert(tag_typing().len() != tag_chat().len());
    lemma_eat_concat(key_user_id(), t_u);
    lemma_parse_escape_seq(user_id, t_kb);
    lemma_eat_concat(key_is_typing(), t_b);
    if is_typing {
        lemma_eat_concat(lit_true(), seq!['}']);
    } else {
        lemma_eat_concat(lit_false(), seq!['}']);
        assert(eat(t_b, lit_true()) is None) by {
            assert(t_b[0] == lit_false()[0]);
            if t_b.subrange(0, lit_true().len() as int) == lit_true() {
                assert(t_b.subrange(0, lit_true().len() as int)[0] == t_b[0]);
            }
        }
    }
}

#[verifier::rlimit(100)]
proof fn lemma_rt_connected(user_id: Seq<char>, session_id: Seq<char>)
    ensures
        decode_spec(encode_spec(MessageV::Connected { user_id, session_id })) == Ok::<
            MessageV,
            DecodeError,
        >(MessageV::Connected { user_id, session_id }),
{
    let m = MessageV::Connected { user_id, session_id };
    let s = encode_spec(m);
    let t_s = escape_seq(session_id) + seq!['"'] + seq!['}'];
    let t_ks = key_session_id() + t_s;
    let t_u = escape_seq(user_id) + seq!['"'] + t_ks;
    let t_ku = key_user_id() + t_u;
    let t_tag = escape_seq(tag_connected()) + seq!['"'] + t_ku;
    lemma_plain_words();
    assert(s =~= lit_head() + t_tag);
    lemma_eat_concat(lit_head(), t_tag);
    lemma_parse_escape_seq(tag_connected(), t_ku);
    assert(tag_connected().len() != tag_chat().len());
    assert(tag_connected().len() != tag_typing().len());
    lemma_eat_concat(key_user_id(), t_u);
    lemma_parse_escape_seq(user_id, t_ks);
    lemma_eat_concat(key_session_id(), t_s);
    lemma_parse_escape_seq(session_id, seq!['}']);
}

#[verifier::rlimit(100)]
proof fn lemma_rt_presence(user_id: Seq<char>, status: PresenceStatus)
    ensures
        decode_spec(encode_spec(MessageV::UserPresence { user_id, status })) == Ok::<
            MessageV,
            DecodeError,
        >(MessageV::UserPresence { user_id, status }),
{
    let m = MessageV::UserPresence { user_id, status };
    let s = encode_spec(m);
    let word = status_chars(status);
    let t_st = escape_seq(word) + seq!['"'] + seq!['}'];
    let t_kst = key_status() + t_st;
    let t_u = escape_seq(user_id) + seq!['"'] + t_kst;
    let t_ku = key_user_id() + t_u;
    let t_tag = escape_seq(tag_presence()) + seq!['"'] + t_ku;
    lemma_plain_words();
    assert(s =~= lit_head() + t_tag);
    lemma_eat_concat(lit_head(), t_tag);
    lemma_parse_escape_seq(tag_presence(), t_ku);
    assert(tag_presence().len() != tag_chat().len());
    assert(tag_presence().len() != tag_typing().len());
    assert(tag_presence().len() != tag_connected().len());
    lemma_eat_concat(key_user_id(), t_u);
    lemma_parse_escape_seq(user_id, t_kst);
    lemma_eat_concat(key_status(), t_st);
    lemma_parse_escape_seq(word, seq!['}']);
    assert(lit_online().len() != lit_away().len());
    assert(lit_online().len() != lit_offline().len());
    assert(lit_away().len() != lit_offline().len());
}

#[verifier::rlimit(100)]
proof fn lemma_rt_server(message_id: Seq<char>, status: Seq<char>, data: Option<Seq<char>>)
    ensures
        decode_spec(encode_spec(MessageV::ServerResponse { message_id, status, data })) == Ok::<
            MessageV,
            DecodeError,
        >(MessageV::ServerResponse { message_id, status, data }),
{
    let m = MessageV::ServerResponse { message_id, status, data };
    let s = encode_spec(m);
    let t_d = match data {
        Some(d) => seq!['"'] + (escape_seq(d) + seq!['"'] + seq!['}']),
        None => lit_null() + seq!['}'],
    };
    let t_kd = key_data() + t_d;
    let t_st = escape_seq(status) + seq!['"'] + t_kd;
    let t_kst = key_status() + t_st;
    let t_m = escape_seq(message_id) + seq!['"'] + t_kst;
    let t_km = key_message_id() + t_m;
    let t_tag = escape_seq(tag_server()) + seq!['"'] + t_km;
    lemma_plain_words();
    assert(s =~= lit_head() + t_tag);
    lemma_eat_concat(lit_head(), t_tag);
    lemma_parse_escape_seq(tag_server(), t_km);
    assert(tag_server().len() != tag_chat().len());
    assert(tag_server().len() != tag_typing().len());
    assert(tag_server().len() != tag_connected().len());
    assert(tag_server().len() != tag_presence().len());
    lemma_eat_concat(key_message_id(), t_m);
    lemma_parse_escape_seq(message_id, t_kst);
    lemma_eat_concat(key_status(), t_st);
    lemma_parse_escape_seq(status, t_kd);
    lemma_eat_concat(key_data(), t_d);
    match data {
        Some(d) => {
            let t_body = escape_seq(d) + seq!['"'] + seq!['}'];
            lemma_eat_concat(seq!['"'], t_body);
            lemma_parse_escape_seq(d, seq!['}']);
        },
        None => {
            lemma_eat_concat(lit_null(), seq!['}']);
            assert(eat(t_d, seq!['"']) is None) by {
                assert(t_d[0] == lit_null()[0]);
                if t_d.subrange(0, 1) == seq!['"'] {
                    assert(t_d.subrange(0, 1)[0] == t_d[0]);
                }
            }
        },
    }
}

#[verifier::rlimit(100)]
proof fn lemma_rt_error(code: Seq<char>, message: Seq<char>)
    ensures
        decode_spec(encode_spec(MessageV::Error { code, message })) == Ok::<MessageV, DecodeError>(
            MessageV::Error { code, message },
        ),
{
    let m = MessageV::Error { code, message };
    let s = encode_spec(m);
    let t_m = escape_seq(message) + seq!['"'] + seq!['}'];
    let t_km = key_message() + t_m;
    let t_c = escape_seq(code) + seq!['"'] + t_km;
    let t_kc = key_code() + t_c;
    let t_tag = escape_seq(tag_error()) + seq!['"'] + t_kc;
    lemma_plain_words();
    assert(s =~= lit_head() + t_tag);
    lemma_eat_concat(lit_head(), t_tag);
    lemma_parse_escape_seq(tag_error(), t_kc);
    assert(tag_error().len() != tag_chat().len());
    assert(tag_error().len() != tag_typing().len());
    assert(tag_error().len() != tag_connected().len());
    assert(tag_error().len() != tag_presence().len());
    assert(tag_error().len() != tag_server().len());
    lemma_eat_concat(key_code(), t_c);
    lemma_parse_escape_seq(code, t_km);
    lemma_eat_concat(key_message(), t_m);
    lemma_parse_escape_seq(message, seq!['}']);
}

proof fn lemma_eat_sound(s: Seq<char>, lit: Seq<char>, r: Seq<char>)
    requires
        eat(s, lit) == Some(r),
    ensures
        s == lit + r,
{
    assert(s =~= s.subrange(0, lit.len() as int) + s.skip(lit.len() as int));
}

proof fn lemma_shape_chat(s: Seq<char>)
    ensures
        dec_chat(s) matches Ok(m) ==> m is ChatMessage,
{
}

proof fn lemma_shape_typing(s: Seq<char>)
    ensures
        dec_typing(s) matches Ok(m) ==> m is UserTyping,
{
}

proof fn lemma_shape_connected(s: Seq<char>)
    ensures
        dec_connected(s) matches Ok(m) ==> m is Connected,
{
}

proof fn lemma_shape_presence(s: Seq<char>)
    ensures
        dec_presence(s) matches Ok(m) ==> m is UserPresence,
{
}

proof fn lemma_shape_server(s: Seq<char>)
    ensures
        dec_server(s) matches Ok(m) ==> m is ServerResponse,
{
}

proof fn lemma_shape_error(s: Seq<char>)
    ensures
        dec_error(s) matches Ok(m) ==> m is Error,
{
}

#[verifier::rlimit(100)]
proof fn lemma_sound_chat(
    s: Seq<char>,
    id: Seq<char>,
    content: Seq<char>,
    user_id: Seq<char>,
    timestamp: u64,
)
    requires
        dec_chat(s) == Ok::<MessageV, DecodeError>(
            MessageV::ChatMessage { id, content, user_id, timestamp },
        ),
    ensures
        s == key_id() + escape_seq(id) + seq!['"'] + key_content() + escape_seq(content)
            + seq!['"'] + key_user_id() + escape_seq(user_id) + seq!['"'] + key_timestamp()
            + dec_of(timestamp as nat) + seq!['}'],
{
    let r1 = eat(s, key_id())->Some_0;
    lemma_eat_sound(s, key_id(), r1);
    let p_id = parse_jstr(r1)->Some_0;
    lemma_parse_jstr_sound(r1, p_id.0, p_id.1);
    let r2 = eat(p_id.1, key_content())->Some_0;
    lemma_eat_sound(p_id.1, key_content(), r2);
    let p_ct = parse_jstr(r2)->Some_0;
    lemma_parse_jstr_sound(r2, p_ct.0, p_ct.1);
    let r3 = eat(p_ct.1, key_user_id())->Some_0;
    lemma_eat_sound(p_ct.1, key_user_id(), r3);
    let p_u = parse_jstr(r3)->Some_0;
    lemma_parse_jstr_sound(r3, p_u.0, p_u.1);
    let r4 = eat(p_u.1, key_timestamp())->Some_0;
    lemma_eat_sound(p_u.1, key_timestamp(), r4);
    let p_t = parse_dec(r4)->Some_0;
    crate::decimal::lemma_parse_dec_sound(r4, p_t.0, p_t.1);
    assert(p_id.0 == id && p_ct.0 == content && p_u.0 == user_id && p_t.0 == timestamp);
    assert(p_t.1 == seq!['}']);
    assert(s =~= key_id() + escape_seq(id) + seq!['"'] + key_content() + escape_seq(content)
        + seq!['"'] + key_user_id() + escape_seq(user_id) + seq!['"'] + key_timestamp() + dec_of(
        timestamp as nat,
    ) + seq!['}']);
}

#[verifier::rlimit(100)]
proof fn lemma_sound_typing(s: Seq<char>, user_id: Seq<char>, is_typing: bool)
    requires
        dec_typing(s) == Ok::<MessageV, DecodeError>(MessageV::UserTyping { user_id, is_typing }),
    ensures
        s == key_user_id() + escape_seq(user_id) + seq!['"'] + key_is_typing() + (if is_typing {
            lit_true()
        } else {
            lit_false()
        }) + seq!['}'],
{
    let r1 = eat(s, key_user_id())->Some_0;
    lemma_eat_sound(s, key_user_id(), r1);
    let p_u = parse_jstr(r1)->Some_0;
    lemma_parse_jstr_sound(r1, p_u.0, p_u.1);
    let r2 = eat(p_u.1, key_is_typing())->Some_0;
    lemma_eat_sound(p_u.1, key_is_typing(), r2);
    assert(p_u.0 == user_id);
    if eat(r2, lit_true()) is Some {
        let r3 = eat(r2, lit_true())->Some_0;
        lemma_eat_sound(r2, lit_true(), r3);
        assert(is_typing == true && r3 == seq!['}']);
    } else {
        let r3 = eat(r2, lit_false())->Some_0;
        lemma_eat_sound(r2, lit_false(), r3);
        assert(is_typing == false && r3 == seq!['}']);
    }
    assert(s =~= key_user_id() + escape_seq(user_id) + seq!['"'] + key_is_typing() + (
    if is_typing {
        lit_true()
    } else {
        lit_false()
    }) + seq!['}']);
}

#[verifier::rlimit(100)]
proof fn lemma_sound_connected(s: Seq<char>, user_id: Seq<char>, session_id: Seq<char>)
    requires
        dec_connected(s) == Ok::<MessageV, DecodeError>(
            MessageV::Connected { user_id, session_id },
        ),
    ensures
        s == key_user_id() + escape_seq(user_id) + seq!['"'] + key_session_id() + escape_seq(
            session_id,
        ) + seq!['"'] + seq!['}'],
{
    let r1 = eat(s, key_user_id())->Some_0;
    lemma_eat_sound(s, key_user_id(), r1);
    let p_u = parse_jstr(r1)->Some_0;
    lemma_parse_jstr_sound(r1, p_u.0, p_u.1);
    let r2 = eat(p_u.1, key_session_id())->Some_0;
    lemma_eat_sound(p_u.1, key_session_id(), r2);
    let p_s = parse_jstr(r2)->Some_0;
    lemma_parse_jstr_sound(r2, p_s.0, p_s.1);
    assert(p_u.0 == user_id && p_s.0 == session_id && p_s.1 == seq!['}']);
    assert(s =~= key_user_id() + escape_seq(user_id) + seq!['"'] + key_session_id() + escape_seq(
        session_id,
    ) + seq!['"'] + seq!['}']);
}

#[verifier::rlimit(100)]
proof fn lemma_sound_presence(s: Seq<char>, user_id: Seq<char>, status: PresenceStatus)
    requires
        dec_presence(s) == Ok::<MessageV, DecodeError>(MessageV::UserPresence { user_id, status }),
    ensures
        s == key_user_id() + escape_seq(user_id) + seq!['"'] + key_status() + status_chars(status)
            + seq!['"'] + seq!['}'],
{
    let r1 = eat(s, key_user_id())->Some_0;
    lemma_eat_sound(s, key_user_id(), r1);
    let p_u = parse_jstr(r1)->Some_0;
    lemma_parse_jstr_sound(r1, p_u.0, p_u.1);
    let r2 = eat(p_u.1, key_status())->Some_0;
    lemma_eat_sound(p_u.1, key_status(), r2);
    let p_s = parse_jstr(r2)->Some_0;
    lemma_parse_jstr_sound(r2, p_s.0, p_s.1);
    lemma_plain_words();
    assert(p_u.0 == user_id && p_s.1 == seq!['}']);
    assert(p_s.0 == status_chars(status));
    assert(escape_seq(status_chars(status)) == status_chars(status));
    assert(s =~= key_user_id() + escape_seq(user_id) + seq!['"'] + key_status() + status_chars(
        status,
    ) + seq!['"'] + seq!['}']);
}

#[verifier::rlimit(100)]
proof fn lemma_sound_server(
    s: Seq<char>,
    message_id: Seq<char>,
    status: Seq<char>,
    data: Option<Seq<char>>,
)
    requires
        dec_server(s) == Ok::<MessageV, DecodeError>(
            MessageV::ServerResponse { message_id, status, data },
        ),
    ensures
        s == key_message_id() + escape_seq(message_id) + seq!['"'] + key_status() + escape_seq(
            status,
        ) + seq!['"'] + key_data() + (match data {
            Some(d) => seq!['"'] + escape_seq(d) + seq!['"'],
            None => lit_null(),
        }) + seq!['}'],
{
    let r1 = eat(s, key_message_id())->Some_0;
    lemma_eat_sound(s, key_message_id(), r1);
    let p_m = parse_jstr(r1)->Some_0;
    lemma_parse_jstr_sound(r1, p_m.0, p_m.1);
    let r2 = eat(p_m.1, key_status())->Some_0;
    lemma_eat_sound(p_m.1, key_status(), r2);
    let p_s = parse_jstr(r2)->Some_0;
    lemma_parse_jstr_sound(r2, p_s.0, p_s.1);
    let r3 = eat(p_s.1, key_data())->Some_0;
    lemma_eat_sound(p_s.1, key_data(), r3);
    assert(p_m.0 == message_id && p_s.0 == status);
    match eat(r3, seq!['"']) {
        Some(r4) => {
            lemma_eat_sound(r3, seq!['"'], r4);
            let p_d = parse_jstr(r4)->Some_0;
            lemma_parse_jstr_sound(r4, p_d.0, p_d.1);
            assert(data == Some(p_d.0) && p_d.1 == seq!['}']);
        },
        None => {
            let r4 = eat(r3, lit_null())->Some_0;
            lemma_eat_sound(r3, lit_null(), r4);
            assert(data is None && r4 == seq!['}']);
        },
    }
    assert(s =~= key_message_id() + escape_seq(message_id) + seq!['"'] + key_status() + escape_seq(
        status,
    ) + seq!['"'] + key_data() + (match data {
        Some(d) => seq!['"'] + escape_seq(d) + seq!['"'],
        None => lit_null(),
    }) + seq!['}']);
}

#[verifier::rlimit(100)]
proof fn lemma_sound_error(s: Seq<char>, code: Seq<char>, message: Seq<char>)
    requires
        dec_error(s) == Ok::<MessageV, DecodeError>(MessageV::Error { code, message }),
    ensures
        s == key_code() + escape_seq(code) + seq!['"'] + key_message() + escape_seq(message)
            + seq!['"'] + seq!['}'],
{
    let r1 = eat(s, key_code())->Some_0;
    lemma_eat_sound(s, key_code(), r1);
    let p_c = parse_jstr(r1)->Some_0;
    lemma_parse_jstr_sound(r1, p_c.0, p_c.1);
    let r2 = eat(p_c.1, key_message())->Some_0;
    lemma_eat_sound(p_c.1, key_message(), r2);
    let p_m = parse_jstr(r2)->Some_0;
    lemma_parse_jstr_sound(r2, p_m.0, p_m.1);
    assert(p_c.0 == code && p_m.0 == message && p_m.1 == seq!['}']);
    assert(s =~= key_code() + escape_seq(code) + seq!['"'] + key_message() + escape_seq(message)
        + seq!['"'] + seq!['}']);
}

/// Soundness of the decoder: a text that decodes at all is the canonical
/// frame of the message it decodes to. Together with [`lemma_round_trip`],
/// the texts [`decode`] accepts are exactly the frames [`encode`] writes.
#[verifier::rlimit(100)]
pub proof fn lemma_decode_sound(s: Seq<char>, m: MessageV)
    requires
        decode_spec(s) == Ok::<MessageV, DecodeError>(m),
    ensures
        s == encode_spec(m),
{
    match m {
        MessageV::ChatMessage { id, content, user_id, timestamp } => {
            lemma_decode_sound_chat(s, id, content, user_id, timestamp);
        },
        MessageV::UserTyping { user_id, is_typing } => {
            lemma_decode_sound_typing(s, user_id, is_typing);
        },
        MessageV::Connected { user_id, session_id } => {
            lemma_decode_sound_connected(s, user_id, session_id);
        },
        MessageV::UserPresence { user_id, status } => {
            lemma_decode_sound_presence(s, user_id, status);
        },
        MessageV::ServerResponse { message_id, status, data } => {
            lemma_decode_sound_server(s, message_id, status, data);
        },
        MessageV::Error { code, message } => {
            lemma_decode_sound_error(s, code, message);
        },
    }
}

#[verifier::rlimit(100)]
proof fn lemma_decode_sound_chat(
    s: Seq<char>,
    id: Seq<char>,
    content: Seq<char>,
    user_id: Seq<char>,
    timestamp: u64,
)
    requires
        decode_spec(s) == Ok::<MessageV, DecodeError>(
            MessageV::ChatMessage { id, content, user_id, timestamp },
        ),
    ensures
        s == encode_spec(MessageV::ChatMessage { id, content, user_id, timestamp }),
{
    let m = MessageV::ChatMessage { id, content, user_id, timestamp };
    let r0 = eat(s, lit_head())->Some_0;
    lemma_eat_sound(s, lit_head(), r0);
    let p = parse_jstr(r0)->Some_0;
    lemma_parse_jstr_sound(r0, p.0, p.1);
    lemma_plain_words();
    lemma_shape_typing(p.1);
    lemma_shape_connected(p.1);
    lemma_shape_presence(p.1);
    lemma_shape_server(p.1);
    lemma_shape_error(p.1);
    assert(p.0 == tag_chat());
    lemma_sound_chat(p.1, id, content, user_id, timestamp);
    assert(s =~= encode_spec(m));
}

#[verifier::rlimit(100)]
proof fn lemma_decode_sound_typing(s: Seq<char>, user_id: Seq<char>, is_typing: bool)
    requires
        decode_spec(s) == Ok::<MessageV, DecodeError>(MessageV::UserTyping { user_id, is_typing }),
    ensures
        s == encode_spec(MessageV::UserTyping { user_id, is_typing }),
{
    let m = MessageV::UserTyping { user_id, is_typing };
    let r0 = eat(s, lit_head())->Some_0;
    lemma_eat_sound(s, lit_head(), r0);
    let p = parse_jstr(r0)->Some_0;
    lemma_parse_jstr_sound(r0, p.0, p.1);
    lemma_plain_words();
    lemma_shape_chat(p.1);
    lemma_shape_connected(p.1);
    lemma_shape_presence(p.1);
    lemma_shape_server(p.1);
    lemma_shape_error(p.1);
    assert(p.0 == tag_typing());
    lemma_sound_typing(p.1, user_id, is_typing);
    assert(s =~= encode_spec(m));
}

#[verifier::rlimit(100)]
proof fn lemma_decode_sound_connected(s: Seq<char>, user_id: Seq<char>, session_id: Seq<char>)
    requires
        decode_spec(s) == Ok::<MessageV, DecodeError>(
            MessageV::Connected { user_id, session_id },
        ),
    ensures
        s == encode_spec(MessageV::Connected { user_id, session_id }),
{
    let m = MessageV::Connected { user_id, session_id };
    let r0 = eat(s, lit_head())->Some_0;
    lemma_eat_sound(s, lit_head(), r0);
    let p = parse_jstr(r0)->Some_0;
    lemma_parse_jstr_sound(r0, p.0, p.1);
    lemma_plain_words();
    lemma_shape_chat(p.1);
    lemma_shape_typing(p.1);
    lemma_shape_presence(p.1);
    lemma_shape_server(p.1);
    lemma_shape_error(p.1);
    assert(p.0 == tag_connected());
    lemma_sound_connected(p.1, user_id, session_id);
    assert(s =~= encode_spec(m));
}

#[verifier::rlimit(100)]
proof fn lemma_decode_sound_presence(s: Seq<char>, user_id: Seq<char>, status: PresenceStatus)
    requires
        decode_spec(s) == Ok::<MessageV, DecodeError>(MessageV::UserPresence { user_id, status }),
    ensures
        s == encode_spec(MessageV::UserPresence { user_id, status }),
{
    let m = MessageV::UserPresence { user_id, status };
    let r0 = eat(s, lit_head())->Some_0;
    lemma_eat_sound(s, lit_head(), r0);
    let p = parse_jstr(r0)->Some_0;
    lemma_parse_jstr_sound(r0, p.0, p.1);
    lemma_plain_words();
    lemma_shape_chat(p.1);
    lemma_shape_typing(p.1);
    lemma_shape_connected(p.1);
    lemma_shape_server(p.1);
    lemma_shape_error(p.1);
    assert(p.0 == tag_presence());
    lemma_sound_presence(p.1, user_id, status);
    assert(s =~= encode_spec(m));
}

#[verifier::rlimit(100)]
proof fn lemma_decode_sound_server(
    s: Seq<char>,
    message_id: Seq<char>,
    status: Seq<char>,
    data: Option<Seq<char>>,
)
    requires
        decode_spec(s) == Ok::<MessageV, DecodeError>(
            MessageV::ServerResponse { message_id, status, data },
        ),
    ensures
        s == encode_spec(MessageV::ServerResponse { message_id, status, data }),
{
    let m = MessageV::ServerResponse { message_id, status, data };
    let r0 = eat(s, lit_head())->Some_0;
    lemma_eat_sound(s, lit_head(), r0);
    let p = parse_jstr(r0)->Some_0;
    lemma_parse_jstr_sound(r0, p.0, p.1);
    lemma_plain_words();
    lemma_shape_chat(p.1);
    lemma_shape_typing(p.1);
    lemma_shape_connected(p.1);
    lemma_shape_presence(p.1);
    lemma_shape_error(p.1);
    assert(p.0 == tag_server());
    lemma_sound_server(p.1, message_id, status, data);
    assert(s =~= encode_spec(m));
}

#[verifier::rlimit(100)]
proof fn lemma_decode_sound_error(s: Seq<char>, code: Seq<char>, message: Seq<char>)
    requires
        decode_spec(s) == Ok::<MessageV, DecodeError>(MessageV::Error { code, message }),
    ensures
        s == encode_spec(MessageV::Error { code, message }),
{
    let m = MessageV::Error { code, message };
    let r0 = eat(s, lit_head())->Some_0;
    lemma_eat_sound(s, lit_head(), r0);
    let p = parse_jstr(r0)->Some_0;
    lemma_parse_jstr_sound(r0, p.0, p.1);
    lemma_plain_words();
    lemma_shape_chat(p.1);
    lemma_shape_typing(p.1);
    lemma_shape_connected(p.1);
    lemma_shape_presence(p.1);
    lemma_shape_server(p.1);
    assert(p.0 == tag_error());
    lemma_sound_error(p.1, code, message);
    assert(s =~= encode_spec(m));
}

/// Frames are unambiguous: two different messages never share a frame.
pub proof fn lemma_encode_injective(m1: MessageV, m2: MessageV)
    requires
        encode_spec(m1) == encode_spec(m2),
    ensures
        m1 == m2,
{
    lemma_round_trip(m1);
    lemma_round_trip(m2);
}

/// Round trip: every constructible message decodes back, unchanged, from
/// the one frame that [`encode`] writes for it.
pub proof fn lemma_round_trip(m: MessageV)
    ensures
        decode_spec(encode_spec(m)) == Ok::<MessageV, DecodeError>(m),
{
    match m {
        MessageV::ChatMessage { id, content, user_id, timestamp } => {
            lemma_rt_chat(id, content, user_id, timestamp);
        },
        MessageV::UserTyping { user_id, is_typing } => {
            lemma_rt_typing(user_id, is_typing);
        },
        MessageV::Connected { user_id, session_id } => {
            lemma_rt_connected(user_id, session_id);
        },
        MessageV::UserPresence { user_id, status } => {
            lemma_rt_presence(user_id, status);
        },
        MessageV::ServerResponse { message_id, status, data } => {
            lemma_rt_server(message_id, status, data);
        },
        MessageV::Error { code, message } => {
            lemma_rt_error(code, message);
        },
    }
}

} // verus!
