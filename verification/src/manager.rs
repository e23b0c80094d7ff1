//! The connection manager's state machine. The manager owns one transport
//! at a time and decides, for every call and every transport event, the next
//! connection state, the commands the surrounding transport layer must
//! perform (open, write, close, schedule a retry), and the notifications the
//! observers receive, in order. The transport layer itself (the socket, the
//! timer) lives outside this crate and only feeds events back in, tagged
//! with the generation of the transport they came from so that a superseded
//! transport or a stale retry timer can never act again.

use vstd::prelude::*;
use crate::chars::chars_to_string;
use crate::codec::{encode, encode_spec, decode, decode_spec};
use crate::decimal::{dec_of, push_dec};
use crate::protocol::{Message, MessageV, DecodeError, SendError};

verus! {

/// The connection's lifecycle state. Exactly one holds at any instant.
#[derive(Debug, PartialEq, Eq)]
pub enum ConnectionState {
    Disconnected,
    Connecting,
    Connected,
    Reconnecting,
    /// Terminal until an explicit `connect`: the reconnection policy gave
    /// up, with the reason.
    Failed(String),
}

/// The mathematical value of a [`ConnectionState`].
pub enum StateV {
    Disconnected,
    Connecting,
    Connected,
    Reconnecting,
    Failed(Seq<char>),
}

impl View for ConnectionState {
    type V = StateV;

    open spec fn view(&self) -> StateV {
        match *self {
            ConnectionState::Disconnected => StateV::Disconnected,
            ConnectionState::Connecting => StateV::Connecting,
            ConnectionState::Connected => StateV::Connected,
            ConnectionState::Reconnecting => StateV::Reconnecting,
            ConnectionState::Failed(ref r) => StateV::Failed(r@),
        }
    }
}

impl Clone for ConnectionState {
    fn clone(&self) -> (r: Self)
        ensures
            r@ == self@,
    {
        match self {
            ConnectionState::Disconnected => ConnectionState::Disconnected,
            ConnectionState::Connecting => ConnectionState::Connecting,
            ConnectionState::Connected => ConnectionState::Connected,
            ConnectionState::Reconnecting => ConnectionState::Reconnecting,
            ConnectionState::Failed(r) => ConnectionState::Failed(r.clone()),
        }
    }
}

/// The reconnection policy: read on every reconnection decision, never by
/// an attempt already in flight.
#[derive(Debug, Clone, Copy, PartialEq, Eq, Structural)]
pub struct ReconnectPolicy {
    pub auto_reconnect: bool,
    pub interval_ms: u32,
    pub max_attempts: u32,
}

/// The ephemeral session: created when a transport opens, cleared when the
/// connection is let go.
#[derive(Debug, PartialEq, Eq)]
pub struct Session {
    pub user_id: String,
    pub session_id: String,
}

/// The mathematical value of a [`Session`].
pub struct SessionV {
    pub user_id: Seq<char>,
    pub session_id: Seq<char>,
}

impl View for Session {
    type V = SessionV;

    open spec fn view(&self) -> SessionV {
        SessionV { user_id: self.user_id@, session_id: self.session_id@ }
    }
}

/// What the transport layer is asked to do, in order.
#[derive(Debug, PartialEq, Eq)]
pub enum Command {
    /// Open a fresh transport to `url` and tag its callbacks with
    /// `generation`.
    OpenTransport { url: String, generation: u64 },
    /// Write one frame on the current transport.
    WriteFrame { text: String },
    /// Close the current transport with this close code.
    CloseTransport { code: u16 },
    /// Arrange for the retry timer to fire after `delay_ms`, carrying
    /// `generation`.
    ScheduleRetry { generation: u64, delay_ms: u32 },
}

/// The mathematical value of a [`Command`].
pub enum CommandV {
    OpenTransport { url: Seq<char>, generation: u64 },
    WriteFrame { text: Seq<char> },
    CloseTransport { code: u16 },
    ScheduleRetry { generation: u64, delay_ms: u32 },
}

impl View for Command {
    type V = CommandV;

    open spec fn view(&self) -> CommandV {
        match *self {
            Command::OpenTransport { ref url, generation } => CommandV::OpenTransport {
                url: url@,
                generation,
            },
            Command::WriteFrame { ref text } => CommandV::WriteFrame { text: text@ },
            Command::CloseTransport { code } => CommandV::CloseTransport { code },
            Command::ScheduleRetry { generation, delay_ms } => CommandV::ScheduleRetry {
                generation,
                delay_ms,
            },
        }
    }
}

/// What the observers are told, in order.
#[derive(Debug, PartialEq, Eq)]
pub enum Notification {
    /// The state observer: the connection entered this state.
    StateChanged(ConnectionState),
    /// The message observer: a frame decoded to this message.
    MessageReceived(Message),
    /// The error observer: a frame was dropped, with the raw text and why.
    DecodeFailure { kind: DecodeError, detail: String },
    /// The error observer: the transport reported an error.
    TransportError { detail: String },
}

/// The mathematical value of a [`Notification`].
pub enum NotificationV {
    StateChanged(StateV),
    MessageReceived(MessageV),
    DecodeFailure { kind: DecodeError, detail: Seq<char> },
    TransportError { detail: Seq<char> },
}

impl View for Notification {
    type V = NotificationV;

    open spec fn view(&self) -> NotificationV {
        match *self {
            Notification::StateChanged(ref st) => NotificationV::StateChanged(st@),
            Notification::MessageReceived(ref m) => NotificationV::MessageReceived(m@),
            Notification::DecodeFailure { kind, ref detail } => NotificationV::DecodeFailure {
                kind,
                detail: detail@,
            },
            Notification::TransportError { ref detail } => NotificationV::TransportError {
                detail: detail@,
            },
        }
    }
}

/// The commands and notifications one call produced, each in the order they
/// are to be performed and delivered.
#[derive(Debug)]
pub struct Effects {
    pub commands: Vec<Command>,
    pub events: Vec<Notification>,
}

pub open spec fn cmds_view(v: Seq<Command>) -> Seq<CommandV> {
    v.map_values(|c: Command| c@)
}

pub open spec fn evts_view(v: Seq<Notification>) -> Seq<NotificationV> {
    v.map_values(|n: Notification| n@)
}

/// The manager. All fields are mutated only by its methods; the surrounding
/// transport layer observes them through the returned [`Effects`].
#[derive(Debug)]
pub struct WebSocketManager {
    /// The endpoint every transport is opened to.
    pub url: String,
    pub state: ConnectionState,
    pub policy: ReconnectPolicy,
    /// Reconnection attempts consumed since the counter was last reset.
    pub attempts: u32,
    /// The liveness token: the generation of the current transport or
    /// attempt. Events tagged with an older generation are ignored.
    pub generation: u64,
    /// The user this manager connects on behalf of, from `connect`.
    pub user_id: Option<String>,
    pub session: Option<Session>,
}

/// The mathematical value of a [`WebSocketManager`].
pub struct ManagerV {
    pub url: Seq<char>,
    pub state: StateV,
    pub policy: ReconnectPolicy,
    pub attempts: u32,
    pub generation: u64,
    pub user_id: Option<Seq<char>>,
    pub session: Option<SessionV>,
}

impl View for WebSocketManager {
    type V = ManagerV;

    open spec fn view(&self) -> ManagerV {
        ManagerV {
            url: self.url@,
            state: self.state@,
            policy: self.policy,
            attempts: self.attempts,
            generation: self.generation,
            user_id: match self.user_id {
                Some(ref u) => Some(u@),
                None => None,
            },
            session: match self.session {
                Some(ref s) => Some(s@),
                None => None,
            },
        }
    }
}

impl ManagerV {
    /// The manager's internal invariant: whoever is (or was last) on the
    /// way to a connection is known, and an open connection has a session.
    pub open spec fn wf(self) -> bool {
        &&& (self.state is Connecting || self.state is Connected || self.state is Reconnecting)
            ==> self.user_id is Some
        &&& self.state is Connected ==> self.session is Some
        &&& self.state is Disconnected ==> self.session is None
    }
}

/// One step of the state machine: the manager after the step, and what the
/// step asks of the transport layer and tells the observers.
pub struct StepV {
    pub m: ManagerV,
    pub commands: Seq<CommandV>,
    pub events: Seq<NotificationV>,
}

/// The step that leaves everything as it stands and says nothing.
pub open spec fn no_step(m: ManagerV) -> StepV {
    StepV { m, commands: Seq::empty(), events: Seq::empty() }
}

/// `connect(user_id)`: from `Disconnected`, `Failed` or `Reconnecting`,
/// enter `Connecting`, reset the attempt counter, supersede anything
/// pending, and open one fresh transport. While already `Connecting` or
/// `Connected` it is a guarded no-op: no second transport is opened.
pub open spec fn connect_step(m: ManagerV, user_id: Seq<char>) -> StepV {
    if m.state is Connecting || m.state is Connected {
        no_step(m)
    } else {
        let g = (m.generation + 1) as u64;
        StepV {
            m: ManagerV {
                state: StateV::Connecting,
                attempts: 0,
                generation: g,
                user_id: Some(user_id),
                session: None,
                ..m
            },
            commands: seq![CommandV::OpenTransport { url: m.url, generation: g }],
            events: seq![NotificationV::StateChanged(StateV::Connecting)],
        }
    }
}

/// The transport of generation `generation` opened at time `now_ms`: if it
/// is still the current attempt, enter `Connected`, mint the session, and
/// send the `Connected` frame for it. A superseded transport's open does
/// nothing.
pub open spec fn handle_open_step(m: ManagerV, generation: u64, now_ms: u64) -> StepV {
    if generation != m.generation || !(m.state is Connecting) {
        no_step(m)
    } else {
        let uid = m.user_id->Some_0;
        let sid = dec_of(now_ms as nat);
        StepV {
            m: ManagerV {
                state: StateV::Connected,
                attempts: 0,
                session: Some(SessionV { user_id: uid, session_id: sid }),
                ..m
            },
            commands: seq![
                CommandV::WriteFrame {
                    text: encode_spec(MessageV::Connected { user_id: uid, session_id: sid }),
                },
            ],
            events: seq![NotificationV::StateChanged(StateV::Connected)],
        }
    }
}

/// The reason `Failed` carries when the reconnection policy gives up.
pub open spec fn reason_exhausted() -> Seq<char> {
    seq![
        'r',
        'e',
        'c',
        'o',
        'n',
        'n',
        'e',
        'c',
        't',
        ' ',
        'a',
        't',
        't',
        'e',
        'm',
        'p',
        't',
        's',
        ' ',
        'e',
        'x',
        'h',
        'a',
        'u',
        's',
        't',
        'e',
        'd',
    ]
}

/// The transport of generation `generation` closed with `code`. If it is
/// the current one: a normal closure (`1000`) means `Disconnected`; an
/// abnormal one consumes a reconnection attempt and schedules the retry, or
/// ends in `Failed` when the attempts are spent, or in `Disconnected` when
/// the policy forbids reconnecting. A superseded transport's close does
/// nothing.
pub open spec fn handle_close_step(m: ManagerV, generation: u64, code: u16) -> StepV {
    if generation != m.generation || !(m.state is Connecting || m.state is Connected) {
        no_step(m)
    } else if code == 1000 {
        StepV {
            m: ManagerV { state: StateV::Disconnected, session: None, ..m },
            commands: Seq::empty(),
            events: seq![NotificationV::StateChanged(StateV::Disconnected)],
        }
    } else if m.policy.auto_reconnect && m.attempts < m.policy.max_attempts {
        StepV {
            m: ManagerV { state: StateV::Reconnecting, attempts: (m.attempts + 1) as u32, ..m },
            commands: seq![
                CommandV::ScheduleRetry {
                    generation: m.generation,
                    delay_ms: m.policy.interval_ms,
                },
            ],
            events: seq![NotificationV::StateChanged(StateV::Reconnecting)],
        }
    } else if m.policy.auto_reconnect {
        StepV {
            m: ManagerV { state: StateV::Failed(reason_exhausted()), session: None, ..m },
            commands: Seq::empty(),
            events: seq![NotificationV::StateChanged(StateV::Failed(reason_exhausted()))],
        }
    } else {
        StepV {
            m: ManagerV { state: StateV::Disconnected, session: None, ..m },
            commands: Seq::empty(),
            events: seq![NotificationV::StateChanged(StateV::Disconnected)],
        }
    }
}

/// The retry timer of generation `generation` fired: if it is still the
/// pending one, re-enter `Connecting` and open one fresh transport under
/// the next generation. A stale timer — superseded by `disconnect` or a new
/// `connect` — does nothing and can never resurrect a second transport.
pub open spec fn handle_timer_step(m: ManagerV, generation: u64) -> StepV {
    if generation != m.generation || !(m.state is Reconnecting) {
        no_step(m)
    } else {
        let g = (m.generation + 1) as u64;
        StepV {
            m: ManagerV { state: StateV::Connecting, generation: g, ..m },
            commands: seq![CommandV::OpenTransport { url: m.url, generation: g }],
            events: seq![NotificationV::StateChanged(StateV::Connecting)],
        }
    }
}

/// `disconnect()`: let the connection go. From any state but
/// `Disconnected`: enter `Disconnected`, clear the session, reset the
/// attempt counter, supersede every pending event and timer, and — when a
/// transport may be live — close it with the normal-closure code.
pub open spec fn disconnect_step(m: ManagerV) -> StepV {
    if m.state is Disconnected {
        no_step(m)
    } else {
        let g = (m.generation + 1) as u64;
        StepV {
            m: ManagerV {
                state: StateV::Disconnected,
                attempts: 0,
                generation: g,
                session: None,
                ..m
            },
            commands: if m.state is Connecting || m.state is Connected {
                seq![CommandV::CloseTransport { code: 1000u16 }]
            } else {
                Seq::empty()
            },
            events: seq![NotificationV::StateChanged(StateV::Disconnected)],
        }
    }
}

/// What the observers hear of one inbound frame: the decoded message, or
/// the decode failure with the raw text. A frame of a superseded transport
/// is dropped silently. The connection state is never touched either way.
pub open spec fn frame_events(m: ManagerV, generation: u64, text: Seq<char>) -> Seq<
    NotificationV,
> {
    if generation != m.generation {
        Seq::empty()
    } else {
        match decode_spec(text) {
            Ok(msg) => seq![NotificationV::MessageReceived(msg)],
            Err(e) => seq![NotificationV::DecodeFailure { kind: e, detail: text }],
        }
    }
}

/// The `ChatMessage` built for `send_chat_message`: the id is minted from
/// the session's user and the clock reading.
pub open spec fn chat_frame(uid: Seq<char>, content: Seq<char>, now_ms: u64) -> MessageV {
    MessageV::ChatMessage {
        id: uid + seq!['-'] + dec_of(now_ms as nat),
        content,
        user_id: uid,
        timestamp: now_ms,
    }
}

impl WebSocketManager {
    /// A manager for `url`, not yet connected, with the default
    /// reconnection policy.
    pub fn new(url: String) -> (r: WebSocketManager)
        ensures
            r@.url == url@,
            r@.state is Disconnected,
            r@.policy == (ReconnectPolicy {
                auto_reconnect: true,
                interval_ms: 3000u32,
                max_attempts: 5u32,
            }),
            r@.attempts == 0,
            r@.generation == 0,
            r@.user_id is None,
            r@.session is None,
            r@.wf(),
    {
        WebSocketManager {
            url,
            state: ConnectionState::Disconnected,
            policy: ReconnectPolicy { auto_reconnect: true, interval_ms: 3000, max_attempts: 5 },
            attempts: 0,
            generation: 0,
            user_id: None,
            session: None,
        }
    }

    /// Replaces the reconnection policy. Takes effect on the next
    /// reconnection decision; an attempt already in flight is untouched.
    pub fn set_reconnect_options(&mut self, auto_reconnect: bool, interval_ms: u32, max_attempts: u32)
        ensures
            final(self)@ == (ManagerV {
                policy: ReconnectPolicy { auto_reconnect, interval_ms, max_attempts },
                ..old(self)@
            }),
    {
        self.policy = ReconnectPolicy { auto_reconnect, interval_ms, max_attempts };
    }

    /// A snapshot of the current state.
    pub fn get_connection_state(&self) -> (r: ConnectionState)
        ensures
            r@ == self@.state,
    {
        self.state.clone()
    }

    /// Whether the state is exactly `Connected`.
    pub fn is_connected(&self) -> (r: bool)
        ensures
            r == (self@.state is Connected),
    {
        match &self.state {
            ConnectionState::Connected => true,
            _ => false,
        }
    }

    /// Asks for a connection on behalf of `user_id`, per [`connect_step`]:
    /// the returned state is `Connecting` the moment this returns — never
    /// `Connected` or `Failed` — unless the call was the guarded no-op,
    /// which reports the standing state and opens nothing.
    pub fn connect(&mut self, user_id: String) -> (r: (ConnectionState, Effects))
        requires
            user_id@.len() > 0,
            old(self)@.wf(),
            old(self)@.generation < u64::MAX,
        ensures
            final(self)@.wf(),
            final(self)@ == connect_step(old(self)@, user_id@).m,
            cmds_view(r.1.commands@) == connect_step(old(self)@, user_id@).commands,
            evts_view(r.1.events@) == connect_step(old(self)@, user_id@).events,
            r.0@ == final(self)@.state,
            !(old(self)@.state is Connecting || old(self)@.state is Connected)
                ==> final(self)@.state is Connecting,
            (old(self)@.state is Connecting || old(self)@.state is Connected) ==> final(self)@
                == old(self)@,
    {
        let idle = match &self.state {
            ConnectionState::Connecting | ConnectionState::Connected => false,
            _ => true,
        };
        if !idle {
            let st = self.get_connection_state();
            let eff = Effects { commands: Vec::new(), events: Vec::new() };
            proof {
                assert(cmds_view(eff.commands@) =~= Seq::<CommandV>::empty());
                assert(evts_view(eff.events@) =~= Seq::<NotificationV>::empty());
            }
            (st, eff)
        } else {
            self.generation = self.generation + 1;
            self.state = ConnectionState::Connecting;
            self.attempts = 0;
            self.user_id = Some(user_id);
            self.session = None;
            let mut commands: Vec<Command> = Vec::new();
            commands.push(
                Command::OpenTransport { url: self.url.clone(), generation: self.generation },
            );
            let mut events: Vec<Notification> = Vec::new();
            events.push(Notification::StateChanged(ConnectionState::Connecting));
            let st = self.get_connection_state();
            proof {
                assert(cmds_view(commands@) =~= connect_step(old(self)@, user_id@).commands);
                assert(evts_view(events@) =~= connect_step(old(self)@, user_id@).events);
            }
            (st, Effects { commands, events })
        }
    }

    /// The transport of `generation` opened at `now_ms`, per
    /// [`handle_open_step`]: on the current attempt this reaches
    /// `Connected`, mints the session, and sends the `Connected` frame.
    pub fn handle_open(&mut self, generation: u64, now_ms: u64) -> (eff: Effects)
        requires
            old(self)@.wf(),
        ensures
            final(self)@.wf(),
            final(self)@ == handle_open_step(old(self)@, generation, now_ms).m,
            cmds_view(eff.commands@) == handle_open_step(old(self)@, generation, now_ms).commands,
            evts_view(eff.events@) == handle_open_step(old(self)@, generation, now_ms).events,
    {
        let live = match &self.state {
            ConnectionState::Connecting => generation == self.generation,
            _ => false,
        };
        if !live {
            let eff = Effects { commands: Vec::new(), events: Vec::new() };
            proof {
                assert(cmds_view(eff.commands@) =~= Seq::<CommandV>::empty());
                assert(evts_view(eff.events@) =~= Seq::<NotificationV>::empty());
            }
            return eff;
        }
        let uid: String = match &self.user_id {
            Some(u) => u.clone(),
            None => {
                assert(false);
                String::new()
            },
        };
        let mut sid_chars: Vec<char> = Vec::new();
        push_dec(&mut sid_chars, now_ms);
        let sid = chars_to_string(&sid_chars);
        let msg = Message::Connected { user_id: uid.clone(), session_id: sid.clone() };
        let text = encode(&msg);
        self.state = ConnectionState::Connected;
        self.attempts = 0;
        self.session = Some(Session { user_id: uid, session_id: sid });
        let mut commands: Vec<Command> = Vec::new();
        commands.push(Command::WriteFrame { text });
        let mut events: Vec<Notification> = Vec::new();
        events.push(Notification::StateChanged(ConnectionState::Connected));
        proof {
            assert(cmds_view(commands@) =~= handle_open_step(
                old(self)@,
                generation,
                now_ms,
            ).commands);
            assert(evts_view(events@) =~= handle_open_step(old(self)@, generation, now_ms).events);
        }
        Effects { commands, events }
    }

    /// The transport of `generation` closed with `code`, per
    /// [`handle_close_step`]: normal closure rests at `Disconnected`; an
    /// abnormal one follows the reconnection policy, and never schedules a
    /// retry beyond `max_attempts`.
    pub fn handle_close(&mut self, generation: u64, code: u16) -> (eff: Effects)
        requires
            old(self)@.wf(),
        ensures
            final(self)@.wf(),
            final(self)@ == handle_close_step(old(self)@, generation, code).m,
            cmds_view(eff.commands@) == handle_close_step(old(self)@, generation, code).commands,
            evts_view(eff.events@) == handle_close_step(old(self)@, generation, code).events,
    {
        let live = match &self.state {
            ConnectionState::Connecting | ConnectionState::Connected => generation
                == self.generation,
            _ => false,
        };
        if !live {
            let eff = Effects { commands: Vec::new(), events: Vec::new() };
            proof {
                assert(cmds_view(eff.commands@) =~= Seq::<CommandV>::empty());
                assert(evts_view(eff.events@) =~= Seq::<NotificationV>::empty());
            }
            return eff;
        }
        let mut commands: Vec<Command> = Vec::new();
        let mut events: Vec<Notification> = Vec::new();
        if code == 1000 {
            self.state = ConnectionState::Disconnected;
            self.session = None;
            events.push(Notification::StateChanged(ConnectionState::Disconnected));
        } else if self.policy.auto_reconnect && self.attempts < self.policy.max_attempts {
            self.state = ConnectionState::Reconnecting;
            self.attempts = self.attempts + 1;
            commands.push(
                Command::ScheduleRetry {
                    generation: self.generation,
                    delay_ms: self.policy.interval_ms,
                },
            );
            events.push(Notification::StateChanged(ConnectionState::Reconnecting));
        } else if self.policy.auto_reconnect {
            self.state = ConnectionState::Failed(failed_reason());
            self.session = None;
            events.push(Notification::StateChanged(ConnectionState::Failed(failed_reason())));
        } else {
            self.state = ConnectionState::Disconnected;
            self.session = None;
            events.push(Notification::StateChanged(ConnectionState::Disconnected));
        }
        proof {
            assert(cmds_view(commands@) =~= handle_close_step(old(self)@, generation, code).commands);
            assert(evts_view(events@) =~= handle_close_step(old(self)@, generation, code).events);
        }
        Effects { commands, events }
    }

    /// The retry timer of `generation` fired, per [`handle_timer_step`]: a
    /// stale timer does nothing; the pending one re-enters `Connecting`
    /// and opens one fresh transport.
    pub fn handle_timer(&mut self, generation: u64) -> (eff: Effects)
        requires
            old(self)@.wf(),
            old(self)@.generation < u64::MAX,
        ensures
            final(self)@.wf(),
            final(self)@ == handle_timer_step(old(self)@, generation).m,
            cmds_view(eff.commands@) == handle_timer_step(old(self)@, generation).commands,
            evts_view(eff.events@) == handle_timer_step(old(self)@, generation).events,
    {
        let live = match &self.state {
            ConnectionState::Reconnecting => generation == self.generation,
            _ => false,
        };
        if !live {
            let eff = Effects { commands: Vec::new(), events: Vec::new() };
            proof {
                assert(cmds_view(eff.commands@) =~= Seq::<CommandV>::empty());
                assert(evts_view(eff.events@) =~= Seq::<NotificationV>::empty());
            }
            return eff;
        }
        self.generation = self.generation + 1;
        self.state = ConnectionState::Connecting;
        let mut commands: Vec<Command> = Vec::new();
        commands.push(
            Command::OpenTransport { url: self.url.clone(), generation: self.generation },
        );
        let mut events: Vec<Notification> = Vec::new();
        events.push(Notification::StateChanged(ConnectionState::Connecting));
        proof {
            assert(cmds_view(commands@) =~= handle_timer_step(old(self)@, generation).commands);
            assert(evts_view(events@) =~= handle_timer_step(old(self)@, generation).events);
        }
        Effects { commands, events }
    }

    /// Lets the connection go, per [`disconnect_step`]: the state rests at
    /// `Disconnected`, the session is cleared, and nothing pending — close
    /// event or retry timer — can act afterwards.
    pub fn disconnect(&mut self) -> (eff: Effects)
        requires
            old(self)@.wf(),
            old(self)@.generation < u64::MAX,
        ensures
            final(self)@.wf(),
            final(self)@ == disconnect_step(old(self)@).m,
            cmds_view(eff.commands@) == disconnect_step(old(self)@).commands,
            evts_view(eff.events@) == disconnect_step(old(self)@).events,
            final(self)@.state is Disconnected,
            final(self)@.session is None,
    {
        let idle = match &self.state {
            ConnectionState::Disconnected => true,
            _ => false,
        };
        if idle {
            let eff = Effects { commands: Vec::new(), events: Vec::new() };
            proof {
                assert(cmds_view(eff.commands@) =~= Seq::<CommandV>::empty());
                assert(evts_view(eff.events@) =~= Seq::<NotificationV>::empty());
            }
            return eff;
        }
        let live = match &self.state {
            ConnectionState::Connecting | ConnectionState::Connected => true,
            _ => false,
        };
        self.generation = self.generation + 1;
        self.state = ConnectionState::Disconnected;
        self.attempts = 0;
        self.session = None;
        let mut commands: Vec<Command> = Vec::new();
        if live {
            commands.push(Command::CloseTransport { code: 1000 });
        }
        let mut events: Vec<Notification> = Vec::new();
        events.push(Notification::StateChanged(ConnectionState::Disconnected));
        proof {
            assert(cmds_view(commands@) =~= disconnect_step(old(self)@).commands);
            assert(evts_view(events@) =~= disconnect_step(old(self)@).events);
        }
        Effects { commands, events }
    }

    /// One inbound frame of the transport of `generation`, per
    /// [`frame_events`]: the decoded message for the message observer, or
    /// the decode failure with the raw text for the error observer. Takes
    /// `&self`: no frame, however malformed, moves the connection state.
    pub fn handle_frame(&self, generation: u64, text: &str) -> (events: Vec<Notification>)
        ensures
            evts_view(events@) == frame_events(self@, generation, text@),
    {
        let mut events: Vec<Notification> = Vec::new();
        if generation != self.generation {
            proof {
                assert(evts_view(events@) =~= Seq::<NotificationV>::empty());
            }
            return events;
        }
        match decode(text) {
            Ok(m) => {
                events.push(Notification::MessageReceived(m));
            },
            Err(e) => {
                events.push(Notification::DecodeFailure { kind: e, detail: text.to_owned() });
            },
        }
        proof {
            assert(evts_view(events@) =~= frame_events(self@, generation, text@));
        }
        events
    }

    /// A transport-level error report: told to the error observer, and
    /// nothing else — the state moves only on the close event that follows
    /// it. A superseded transport's error is dropped.
    pub fn handle_transport_error(&self, generation: u64, detail: String) -> (events: Vec<
        Notification,
    >)
        ensures
            generation == self@.generation ==> evts_view(events@) =~= seq![
                NotificationV::TransportError { detail: detail@ },
            ],
            generation != self@.generation ==> evts_view(events@) =~= Seq::<NotificationV>::empty(),
    {
        let mut events: Vec<Notification> = Vec::new();
        if generation == self.generation {
            events.push(Notification::TransportError { detail });
        }
        events
    }

    /// Hands back the frame to write for `message` — if and only if the
    /// state is exactly `Connected`; in every other state nothing is
    /// written and the caller gets `NotConnected`.
    pub fn send_message(&self, message: &Message) -> (r: Result<Command, SendError>)
        ensures
            r is Ok <==> self@.state is Connected,
            r matches Ok(c) ==> c@ == (CommandV::WriteFrame { text: encode_spec(message@) }),
            r matches Err(e) ==> e == SendError::NotConnected,
    {
        match &self.state {
            ConnectionState::Connected => Ok(Command::WriteFrame { text: encode(message) }),
            _ => Err(SendError::NotConnected),
        }
    }

    /// Builds the `ChatMessage` for `content` under the active session —
    /// its id minted from the session's user and `now_ms` — and hands back
    /// the frame to write; `NotConnected` when no session is active or the
    /// state is not `Connected`.
    pub fn send_chat_message(&self, content: String, now_ms: u64) -> (r: Result<
        Command,
        SendError,
    >)
        ensures
            r is Ok <==> (self@.session is Some && self@.state is Connected),
            r matches Ok(c) ==> c@ == (CommandV::WriteFrame {
                text: encode_spec(
                    chat_frame(self@.session->Some_0.user_id, content@, now_ms),
                ),
            }),
            r matches Err(e) ==> e == SendError::NotConnected,
    {
        match &self.session {
            None => Err(SendError::NotConnected),
            Some(sess) => {
                let mut id_chars = crate::chars::str_to_chars(sess.user_id.as_str());
                id_chars.push('-');
                push_dec(&mut id_chars, now_ms);
                let id = chars_to_string(&id_chars);
                let msg = Message::ChatMessage {
                    id,
                    content,
                    user_id: sess.user_id.clone(),
                    timestamp: now_ms,
                };
                proof {
                    assert(id_chars@ =~= self@.session->Some_0.user_id + seq!['-'] + dec_of(
                        now_ms as nat,
                    ));
                }
                self.send_message(&msg)
            },
        }
    }

    /// Builds the `UserTyping` message for the active session and hands
    /// back the frame to write; `NotConnected` when no session is active
    /// or the state is not `Connected`.
    pub fn send_typing_indicator(&self, is_typing: bool) -> (r: Result<Command, SendError>)
        ensures
            r is Ok <==> (self@.session is Some && self@.state is Connected),
            r matches Ok(c) ==> c@ == (CommandV::WriteFrame {
                text: encode_spec(
                    MessageV::UserTyping {
                        user_id: self@.session->Some_0.user_id,
                        is_typing,
                    },
                ),
            }),
            r matches Err(e) ==> e == SendError::NotConnected,
    {
        match &self.session {
            None => Err(SendError::NotConnected),
            Some(sess) => {
                let msg = Message::UserTyping { user_id: sess.user_id.clone(), is_typing };
                self.send_message(&msg)
            },
        }
    }
}

/// The `Failed` reason as text.
fn failed_reason() -> (s: String)
    ensures
        s@ == reason_exhausted(),
{
    let v = vec!['r', 'e', 'c', 'o', 'n', 'n', 'e', 'c', 't', ' ', 'a', 't', 't', 'e', 'm', 'p',
        't', 's', ' ', 'e', 'x', 'h', 'a', 'u', 's', 't', 'e', 'd'];
    assert(v@ =~= reason_exhausted());
    chars_to_string(&v)
}

/// How many transports a step asks to open.
pub open spec fn open_count(commands: Seq<CommandV>) -> int {
    commands.filter(|c: CommandV| c is OpenTransport).len() as int
}

/// From `Disconnected` (or `Failed`), `connect` always yields `Connecting`
/// — and exactly the one `Connecting` notification — before any later
/// `Connected` or `Failed` can be observed.
pub proof fn lemma_connect_yields_connecting(m: ManagerV, user_id: Seq<char>)
    requires
        m.state is Disconnected || m.state is Failed,
    ensures
        connect_step(m, user_id).m.state is Connecting,
        connect_step(m, user_id).events =~= seq![NotificationV::StateChanged(StateV::Connecting)],
{
}

/// Two `connect` calls in rapid succession open exactly one transport: the
/// second call, made while the first already left the manager
/// `Connecting`, changes nothing and opens nothing.
pub proof fn lemma_connect_idempotent(m: ManagerV, uid1: Seq<char>, uid2: Seq<char>)
    requires
        m.state is Disconnected || m.state is Failed,
    ensures
        ({
            let s1 = connect_step(m, uid1);
            let s2 = connect_step(s1.m, uid2);
            &&& s2.m == s1.m
            &&& s2.commands =~= Seq::<CommandV>::empty()
            &&& open_count(s1.commands) + open_count(s2.commands) == 1
        }),
{
    let s1 = connect_step(m, uid1);
    let s2 = connect_step(s1.m, uid2);
    let g = (m.generation + 1) as u64;
    assert(s1.commands =~= seq![CommandV::OpenTransport { url: m.url, generation: g }]);
    reveal_with_fuel(Seq::filter, 3);
    assert(open_count(s1.commands) == 1) by {
        assert(s1.commands.filter(|c: CommandV| c is OpenTransport) =~= s1.commands);
    }
    assert(open_count(s2.commands) == 0) by {
        assert(s2.commands.filter(|c: CommandV| c is OpenTransport) =~= Seq::<CommandV>::empty());
    }
}

/// The reconnection bound: once the attempt counter has consumed
/// `max_attempts`, one more abnormal close schedules no further retry —
/// the manager ends at `Failed` and asks nothing more of the transport
/// layer.
pub proof fn lemma_reconnect_bound(m: ManagerV, code: u16)
    requires
        m.state is Connecting || m.state is Connected,
        code != 1000,
        m.policy.auto_reconnect,
        m.attempts >= m.policy.max_attempts,
    ensures
        handle_close_step(m, m.generation, code).m.state is Failed,
        handle_close_step(m, m.generation, code).commands =~= Seq::<CommandV>::empty(),
{
}

/// `disconnect` cancels the pending retry: whatever timer was scheduled
/// before it, that timer's firing afterwards does nothing and opens no
/// transport.
pub proof fn lemma_disconnect_cancels_retry(m: ManagerV, timer_generation: u64)
    requires
        timer_generation <= m.generation,
        m.generation < u64::MAX,
    ensures
        handle_timer_step(disconnect_step(m).m, timer_generation).m == disconnect_step(m).m,
        handle_timer_step(disconnect_step(m).m, timer_generation).commands =~= Seq::<
            CommandV,
        >::empty(),
{
}

} // verus!
