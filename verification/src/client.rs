//! The per-connection protocol state machine: handshake, framed-message
//! exchange, buffered partial I/O, and the queued-write path. The socket
//! itself lives outside; handlers here take the outcome of each non-blocking
//! attempt and decide the next state, the buffer contents, and the control
//! messages owed to the reactor.
use vstd::prelude::*;
use vstd::utf8::{decode_utf8, valid_utf8};
use crate::buffer::ByteQueue;
use crate::event_message::{messages_view, EventMessage, EventMessageView};
use crate::frame::{decode, decode_spec, encode, encode_spec, pong_for, DecodeError, Frame, FrameView, OpCode};
use crate::handshake::{upgrade_response, upgrade_response_bytes};

verus! {

/// The lifecycle of one connection. It progresses strictly forward, except
/// the two running states, which alternate.
#[derive(Clone, Copy, Debug, PartialEq, Eq, Structural)]
pub enum ClientState {
    New,
    AwaitingHandshake,
    HandshakeResponse,
    Running,
    RunningAndWriting,
}

/// The state after the current unit of work completes.
pub open spec fn next_state(s: ClientState) -> ClientState {
    match s {
        ClientState::New => ClientState::AwaitingHandshake,
        ClientState::AwaitingHandshake => ClientState::HandshakeResponse,
        ClientState::HandshakeResponse => ClientState::Running,
        ClientState::Running => ClientState::Running,
        ClientState::RunningAndWriting => ClientState::Running,
    }
}

/// Whether the handshake is complete and frames flow.
pub open spec fn is_running(s: ClientState) -> bool {
    s == ClientState::Running || s == ClientState::RunningAndWriting
}

impl ClientState {
    /// The state after the current unit of work completes.
    pub fn next(&self) -> (r: ClientState)
        ensures
            r == next_state(*self),
    {
        match *self {
            ClientState::New => ClientState::AwaitingHandshake,
            ClientState::AwaitingHandshake => ClientState::HandshakeResponse,
            ClientState::HandshakeResponse => ClientState::Running,
            ClientState::Running => ClientState::Running,
            ClientState::RunningAndWriting => ClientState::Running,
        }
    }

    /// Whether the handshake is complete and frames flow.
    pub fn running(&self) -> (r: bool)
        ensures
            r == is_running(*self),
    {
        match *self {
            ClientState::Running => true,
            ClientState::RunningAndWriting => true,
            _ => false,
        }
    }
}

/// The readiness interest a state asks for (a hangup notification is always
/// included by the registration itself).
#[derive(Clone, Copy, Debug, PartialEq, Eq, Structural)]
pub struct Interest {
    pub readable: bool,
    pub writable: bool,
}

/// The interest set derived from a state.
pub open spec fn interest_of(s: ClientState) -> Interest {
    match s {
        ClientState::New => Interest { readable: true, writable: false },
        ClientState::AwaitingHandshake => Interest { readable: true, writable: false },
        ClientState::HandshakeResponse => Interest { readable: false, writable: true },
        ClientState::Running => Interest { readable: true, writable: false },
        ClientState::RunningAndWriting => Interest { readable: true, writable: true },
    }
}

/// Which wire protocol this connection speaks: RFC6455 frames, or the older
/// line-delimited variant that ends each text message at a line feed.
#[derive(Clone, Copy, Debug, PartialEq, Eq, Structural)]
pub enum ConnectionMode {
    WebSocketFrames,
    LineDelimited,
}

/// What one non-blocking read attempt on the socket produced.
pub enum ReadOutcome {
    /// The read would block; no more data now.
    WouldBlock,
    /// The call was interrupted; retry at once.
    Interrupted,
    /// Zero bytes were read.
    Eof,
    /// These bytes were read.
    Data(Vec<u8>),
    /// The transport failed.
    TransportError,
}

/// What one non-blocking write attempt on the socket produced.
pub enum WriteOutcome {
    /// The write would block; no capacity now.
    WouldBlock,
    /// The call was interrupted; retry at once.
    Interrupted,
    /// This many bytes were accepted from the front of `outbound`.
    Wrote(usize),
    /// The transport failed.
    TransportError,
}

/// What a handler decided: the control messages to post to the reactor, and
/// whether the retry loop is done.
pub struct HandlerStep {
    pub messages: Vec<EventMessage>,
    pub done: bool,
}

/// The default cap on a decoded payload length, guarding against unbounded
/// allocation from a hostile peer.
pub const DEFAULT_MAX_FRAME_LEN: usize = 1048576;

/// One accepted connection: its identity, lifecycle state, byte buffers, and
/// the explicit in-flight token of the re-arm discipline.
pub struct Client {
    /// The identifier the reactor knows this connection by.
    pub token: u64,
    /// Where in the lifecycle this connection stands.
    pub state: ClientState,
    /// The wire protocol variant this connection speaks.
    pub mode: ConnectionMode,
    /// Bytes received but not yet forming a complete protocol unit.
    pub inbound: ByteQueue,
    /// Bytes queued for write but not yet flushed.
    pub outbound: ByteQueue,
    /// The user-chosen display name.
    pub display_name: String,
    /// The client's handshake key, held between the header callback and the
    /// upgrade, then discarded.
    pub peer_key: Option<String>,
    /// True from the moment the reactor hands this connection to a worker job
    /// until that job's re-arm request is processed. The reactor alone flips
    /// it, which keeps at most one job per connection in flight.
    pub in_flight: bool,
    /// The cap on a decoded payload length.
    pub max_frame_len: usize,
}

/// The fields no protocol handler touches: identity and configuration.
pub open spec fn identity_unchanged(a: Client, b: Client) -> bool {
    &&& b.token == a.token
    &&& b.mode == a.mode
    &&& b.display_name == a.display_name
    &&& b.in_flight == a.in_flight
    &&& b.max_frame_len == a.max_frame_len
}

/// Identity and the whole protocol state alike: nothing changed.
pub open spec fn client_unchanged(a: Client, b: Client) -> bool {
    &&& identity_unchanged(a, b)
    &&& b.state == a.state
    &&& b.inbound@ == a.inbound@
    &&& b.outbound@ == a.outbound@
    &&& b.peer_key == a.peer_key
}

impl Client {
    /// A fresh connection in the given mode.
    pub fn with_mode(token: u64, mode: ConnectionMode) -> (r: Client)
        ensures
            r.token == token,
            r.state == ClientState::New,
            r.mode == mode,
            r.inbound@ == Seq::<u8>::empty(),
            r.outbound@ == Seq::<u8>::empty(),
            r.display_name@ == "Guest"@,
            r.peer_key is None,
            r.in_flight == false,
            r.max_frame_len == DEFAULT_MAX_FRAME_LEN,
    {
        Client {
            token,
            state: ClientState::New,
            mode,
            inbound: ByteQueue::new(),
            outbound: ByteQueue::new(),
            display_name: "Guest".to_owned(),
            peer_key: None,
            in_flight: false,
            max_frame_len: DEFAULT_MAX_FRAME_LEN,
        }
    }

    /// A fresh frame-mode connection.
    pub fn new(token: u64) -> (r: Client)
        ensures
            r.token == token,
            r.state == ClientState::New,
            r.mode == ConnectionMode::WebSocketFrames,
            r.inbound@ == Seq::<u8>::empty(),
            r.outbound@ == Seq::<u8>::empty(),
            r.display_name@ == "Guest"@,
            r.peer_key is None,
            r.in_flight == false,
            r.max_frame_len == DEFAULT_MAX_FRAME_LEN,
    {
        Client::with_mode(token, ConnectionMode::WebSocketFrames)
    }

    /// Derives the interest to (re)register from the current state; a
    /// connection in `New` first advances to `AwaitingHandshake` (its first
    /// registration is its only event in `New`).
    pub fn register(&mut self) -> (r: Interest)
        ensures
            final(self).state == (if old(self).state == ClientState::New {
                ClientState::AwaitingHandshake
            } else {
                old(self).state
            }),
            r == interest_of(final(self).state),
            identity_unchanged(*old(self), *final(self)),
            final(self).inbound@ == old(self).inbound@,
            final(self).outbound@ == old(self).outbound@,
            final(self).peer_key == old(self).peer_key,
    {
        if matches!(self.state, ClientState::New) {
            self.state = self.state.next();
        }
        match self.state {
            ClientState::New => Interest { readable: true, writable: false },
            ClientState::AwaitingHandshake => Interest { readable: true, writable: false },
            ClientState::HandshakeResponse => Interest { readable: false, writable: true },
            ClientState::Running => Interest { readable: true, writable: false },
            ClientState::RunningAndWriting => Interest { readable: true, writable: true },
        }
    }

    /// Remembers the handshake key the header parser reported.
    pub fn set_peer_key(&mut self, key: String)
        ensures
            final(self).peer_key == Some(key),
            identity_unchanged(*old(self), *final(self)),
            final(self).state == old(self).state,
            final(self).inbound@ == old(self).inbound@,
            final(self).outbound@ == old(self).outbound@,
    {
        self.peer_key = Some(key);
    }

    /// Renames the connection.
    pub fn set_display_name(&mut self, name: String)
        ensures
            final(self).display_name == name,
            final(self).token == old(self).token,
            final(self).mode == old(self).mode,
            final(self).in_flight == old(self).in_flight,
            final(self).max_frame_len == old(self).max_frame_len,
            final(self).state == old(self).state,
            final(self).inbound@ == old(self).inbound@,
            final(self).outbound@ == old(self).outbound@,
            final(self).peer_key == old(self).peer_key,
    {
        self.display_name = name;
    }

    /// Queues a frame for write and marks the connection writing.
    pub fn send_frame(&mut self, outbound_frame: Frame)
        ensures
            final(self).outbound@ == old(self).outbound@ + encode_spec(outbound_frame@),
            final(self).state == ClientState::RunningAndWriting,
            identity_unchanged(*old(self), *final(self)),
            final(self).inbound@ == old(self).inbound@,
            final(self).peer_key == old(self).peer_key,
    {
        let mut wire: Vec<u8> = Vec::new();
        encode(&outbound_frame, &mut wire);
        self.outbound.append_vec(&wire);
        self.state = ClientState::RunningAndWriting;
    }

    /// Queues a text frame carrying `payload`.
    pub fn send_text_frame(&mut self, payload: String)
        ensures
            final(self).outbound@ == old(self).outbound@ + encode_spec(
                text_frame_view(payload@),
            ),
            final(self).state == ClientState::RunningAndWriting,
            identity_unchanged(*old(self), *final(self)),
            final(self).inbound@ == old(self).inbound@,
            final(self).peer_key == old(self).peer_key,
    {
        let bytes = payload.as_str().as_bytes_vec();
        let frame = Frame { fin: true, opcode: OpCode::TextFrame, payload: bytes };
        proof {
            assert(frame@ == text_frame_view(payload@));
        }
        self.send_frame(frame);
    }

    /// Queues a binary frame carrying `payload`.
    pub fn send_binary_frame(&mut self, payload: Vec<u8>)
        ensures
            final(self).outbound@ == old(self).outbound@ + encode_spec(
                FrameView { fin: true, opcode: OpCode::BinaryFrame, payload: payload@ },
            ),
            final(self).state == ClientState::RunningAndWriting,
            identity_unchanged(*old(self), *final(self)),
            final(self).inbound@ == old(self).inbound@,
            final(self).peer_key == old(self).peer_key,
    {
        let frame = Frame { fin: true, opcode: OpCode::BinaryFrame, payload };
        self.send_frame(frame);
    }

    /// Hands a completed text message to this connection: delivered (queued as
    /// a text frame) unless the handshake is not complete. Connections earlier
    /// than `Running` silently ignore delivered messages.
    pub fn handle_text_frame(&mut self, payload: String) -> (delivered: bool)
        ensures
            delivered == is_running(old(self).state),
            identity_unchanged(*old(self), *final(self)),
            final(self).inbound@ == old(self).inbound@,
            final(self).peer_key == old(self).peer_key,
            if is_running(old(self).state) {
                final(self).outbound@ == old(self).outbound@ + encode_spec(
                    text_frame_view(payload@),
                ) && final(self).state == ClientState::RunningAndWriting
            } else {
                final(self).outbound@ == old(self).outbound@ && final(self).state == old(
                    self,
                ).state
            },
    {
        if !self.state.running() {
            return false;
        }
        self.send_text_frame(payload);
        true
    }

    /// Hands a completed binary message to this connection; ignored before the
    /// handshake completes, and carried no further (binary payloads have no
    /// chat meaning here).
    pub fn handle_binary_frame(&mut self, payload: Vec<u8>) -> (accepted: bool)
        ensures
            accepted == is_running(old(self).state),
            client_unchanged(*old(self), *final(self)),
    {
        self.state.running()
    }

    /// A pong answers one of our pings; there is nothing to update.
    pub fn handle_pong(&mut self, payload: Vec<u8>)
        ensures
            client_unchanged(*old(self), *final(self)),
    {
    }

    /// Answers a ping with a pong echoing its payload, when running.
    pub fn handle_ping(&mut self, ping_frame: Frame)
        ensures
            identity_unchanged(*old(self), *final(self)),
            final(self).inbound@ == old(self).inbound@,
            final(self).peer_key == old(self).peer_key,
            if is_running(old(self).state) {
                final(self).outbound@ == old(self).outbound@ + encode_spec(
                    FrameView { fin: true, opcode: OpCode::Pong, payload: ping_frame@.payload },
                ) && final(self).state == ClientState::RunningAndWriting
            } else {
                final(self).outbound@ == old(self).outbound@ && final(self).state == old(
                    self,
                ).state
            },
    {
        if self.state.running() {
            let pong = pong_for(&ping_frame);
            proof {
                assert(pong@ == FrameView {
                    fin: true,
                    opcode: OpCode::Pong,
                    payload: ping_frame@.payload,
                });
            }
            self.send_frame(pong);
        }
    }

    /// Delivers a broadcast message originating at `sender`: queued unless
    /// this connection is the sender or its handshake is not complete.
    pub fn deliver_from(&mut self, sender: u64, text: &String) -> (delivered: bool)
        ensures
            delivered == (old(self).token != sender && is_running(old(self).state)),
            identity_unchanged(*old(self), *final(self)),
            final(self).inbound@ == old(self).inbound@,
            final(self).peer_key == old(self).peer_key,
            if old(self).token != sender && is_running(old(self).state) {
                final(self).outbound@ == old(self).outbound@ + encode_spec(
                    text_frame_view(text@),
                ) && final(self).state == ClientState::RunningAndWriting
            } else {
                final(self).outbound@ == old(self).outbound@ && final(self).state == old(
                    self,
                ).state
            },
    {
        if self.token == sender {
            return false;
        }
        self.handle_text_frame(text.clone())
    }
}

/// The view of a single-fragment text frame carrying `text`.
pub open spec fn text_frame_view(text: Seq<char>) -> FrameView {
    FrameView {
        fin: true,
        opcode: OpCode::TextFrame,
        payload: vstd::utf8::encode_utf8(text),
    }
}

/// States whose readable event is in step.
pub open spec fn read_in_step(s: ClientState) -> bool {
    s == ClientState::AwaitingHandshake || is_running(s)
}

/// States whose writable event is in step.
pub open spec fn write_in_step(s: ClientState) -> bool {
    s == ClientState::HandshakeResponse || s == ClientState::RunningAndWriting
}

/// Relies on String::from_utf8: it succeeds exactly on valid UTF-8 and then
/// decodes it (vstd's valid_utf8/decode_utf8 state the same convention).
#[verifier::external_body]
fn bytes_to_string(v: Vec<u8>) -> (r: Option<String>)
    ensures
        match r {
            Some(s) => valid_utf8(v@) && s@ == decode_utf8(v@),
            None => !valid_utf8(v@),
        },
{
    String::from_utf8(v).ok()
}

/// The messages owed for the complete frames at the front of `s`, the bytes
/// left over, and whether pumping ended in a close (a close frame, an
/// unsupported continuation, a malformed or oversized frame, or a text
/// payload that is not UTF-8).
pub open spec fn pump_frames(s: Seq<u8>, max: nat, token: u64) -> (Seq<EventMessageView>, Seq<
    u8,
>, bool)
    decreases s.len(),
        via pump_frames_decreases
{
    match decode_spec(s, max) {
        Err(e) => {
            if e == DecodeError::Incomplete {
                (Seq::<EventMessageView>::empty(), s, false)
            } else {
                (seq![EventMessageView::Close(token)], s, true)
            }
        },
        Ok(p) => {
            let f = p.0;
            let rest = s.skip(p.1 as int);
            match f.opcode {
                OpCode::TextFrame => {
                    if valid_utf8(f.payload) {
                        let tail = pump_frames(rest, max, token);
                        (
                            seq![EventMessageView::TextFrame(token, decode_utf8(f.payload))]
                                + tail.0,
                            tail.1,
                            tail.2,
                        )
                    } else {
                        (seq![EventMessageView::Close(token)], rest, true)
                    }
                },
                OpCode::BinaryFrame => {
                    let tail = pump_frames(rest, max, token);
                    (seq![EventMessageView::BinaryFrame(token, f.payload)] + tail.0, tail.1, tail.2)
                },
                OpCode::Ping => {
                    let tail = pump_frames(rest, max, token);
                    (seq![EventMessageView::Ping(token, f)] + tail.0, tail.1, tail.2)
                },
                OpCode::Pong => {
                    let tail = pump_frames(rest, max, token);
                    (seq![EventMessageView::Pong(token, f.payload)] + tail.0, tail.1, tail.2)
                },
                OpCode::ConnectionClose => (seq![EventMessageView::Close(token)], rest, true),
                OpCode::Continuation => (seq![EventMessageView::Close(token)], rest, true),
            }
        },
    }
}

/// A decoded frame occupies at least its two header bytes and at most the
/// whole buffer.
pub proof fn lemma_decode_used_bounds(s: Seq<u8>, max: nat)
    ensures
        decode_spec(s, max) matches Ok(p) ==> 2 <= p.1 <= s.len(),
{
}

#[via_fn]
proof fn pump_frames_decreases(s: Seq<u8>, max: nat, token: u64) {
    lemma_decode_used_bounds(s, max);
}

/// The messages owed for the complete lines at the front of `s` (line mode:
/// a line feed ends each message), the bytes left over, and whether pumping
/// ended in a close (a line that is not UTF-8).
pub open spec fn pump_lines(s: Seq<u8>, token: u64) -> (Seq<EventMessageView>, Seq<u8>, bool)
    decreases s.len(),
        via pump_lines_decreases
{
    match s.index_of_first(10u8) {
        None => (Seq::<EventMessageView>::empty(), s, false),
        Some(i) => {
            let line = s.subrange(0, i);
            let rest = s.skip(i + 1);
            if valid_utf8(line) {
                let tail = pump_lines(rest, token);
                (seq![EventMessageView::TextFrame(token, decode_utf8(line))] + tail.0, tail.1, tail.2)
            } else {
                (seq![EventMessageView::Close(token)], rest, true)
            }
        },
    }
}

#[via_fn]
proof fn pump_lines_decreases(s: Seq<u8>, token: u64) {
    s.index_of_first_ensures(10u8);
}

/// The pumping owed for this connection's mode.
pub open spec fn pump_inbound(c: Client, s: Seq<u8>) -> (Seq<EventMessageView>, Seq<u8>, bool) {
    if c.mode == ConnectionMode::WebSocketFrames {
        pump_frames(s, c.max_frame_len as nat, c.token)
    } else {
        pump_lines(s, c.token)
    }
}

impl Client {
    /// Whether a readable event is in step for the current state.
    pub fn readable_in_step(&self) -> (r: bool)
        ensures
            r == read_in_step(self.state),
    {
        match self.state {
            ClientState::AwaitingHandshake => true,
            ClientState::Running => true,
            ClientState::RunningAndWriting => true,
            _ => false,
        }
    }

    /// Whether a writable event is in step for the current state.
    pub fn writable_in_step(&self) -> (r: bool)
        ensures
            r == write_in_step(self.state),
    {
        match self.state {
            ClientState::HandshakeResponse => true,
            ClientState::RunningAndWriting => true,
            _ => false,
        }
    }

    /// The step for an event that arrived out of step for the current state:
    /// a harmless diagnostic; re-arm and carry on.
    pub fn out_of_step(&self) -> (r: HandlerStep)
        ensures
            messages_view(r.messages@) == seq![EventMessageView::ReArm(self.token)],
            r.done,
    {
        let mut messages: Vec<EventMessage> = Vec::new();
        messages.push(EventMessage::ReArm(self.token));
        proof {
            assert(messages_view(messages@) =~= seq![EventMessageView::ReArm(self.token)]);
        }
        HandlerStep { messages, done: true }
    }

    /// Drives one outcome of the non-blocking read loop: accumulate bytes and
    /// pump out the complete protocol units, re-arm when the socket has no
    /// more, close on transport or protocol failure, retry on interruption.
    pub fn handle_readable(&mut self, outcome: ReadOutcome) -> (r: HandlerStep)
        requires
            read_in_step(old(self).state),
        ensures
            identity_unchanged(*old(self), *final(self)),
            final(self).outbound@ == old(self).outbound@,
            final(self).peer_key == old(self).peer_key,
            final(self).state == old(self).state,
            match outcome {
                ReadOutcome::WouldBlock => messages_view(r.messages@) == seq![
                    EventMessageView::ReArm(old(self).token),
                ] && r.done && final(self).inbound@ == old(self).inbound@,
                ReadOutcome::Interrupted => messages_view(r.messages@) == Seq::<
                    EventMessageView,
                >::empty() && !r.done && final(self).inbound@ == old(self).inbound@,
                ReadOutcome::Eof => messages_view(r.messages@) == seq![
                    EventMessageView::ReArm(old(self).token),
                ] && r.done && final(self).inbound@ == old(self).inbound@,
                ReadOutcome::TransportError => messages_view(r.messages@) == seq![
                    EventMessageView::Close(old(self).token),
                ] && r.done && final(self).inbound@ == old(self).inbound@,
                ReadOutcome::Data(bytes) => {
                    let fed = old(self).inbound@ + bytes@;
                    if old(self).state == ClientState::AwaitingHandshake {
                        &&& final(self).inbound@ == fed
                        &&& messages_view(r.messages@) == Seq::<EventMessageView>::empty()
                        &&& !r.done
                    } else {
                        let pumped = pump_inbound(*old(self), fed);
                        &&& messages_view(r.messages@) == pumped.0
                        &&& final(self).inbound@ == pumped.1
                        &&& r.done == pumped.2
                    }
                },
            },
    {
        match outcome {
            ReadOutcome::WouldBlock => self.rearm_step(),
            ReadOutcome::Interrupted => HandlerStep { messages: Vec::new(), done: false },
            ReadOutcome::Eof => self.rearm_step(),
            ReadOutcome::TransportError => self.close_step(),
            ReadOutcome::Data(bytes) => {
                self.inbound.append_vec(&bytes);
                if matches!(self.state, ClientState::AwaitingHandshake) {
                    HandlerStep { messages: Vec::new(), done: false }
                } else if matches!(self.mode, ConnectionMode::WebSocketFrames) {
                    self.pump_frame_messages()
                } else {
                    self.pump_line_messages()
                }
            },
        }
    }

    /// A step of one re-arm message.
    fn rearm_step(&self) -> (r: HandlerStep)
        ensures
            messages_view(r.messages@) == seq![EventMessageView::ReArm(self.token)],
            r.done,
    {
        self.out_of_step()
    }

    /// A step of one close message.
    fn close_step(&self) -> (r: HandlerStep)
        ensures
            messages_view(r.messages@) == seq![EventMessageView::Close(self.token)],
            r.done,
    {
        let mut messages: Vec<EventMessage> = Vec::new();
        messages.push(EventMessage::Close(self.token));
        proof {
            assert(messages_view(messages@) =~= seq![EventMessageView::Close(self.token)]);
        }
        HandlerStep { messages, done: true }
    }

    /// Pumps every complete frame out of `inbound`, translating each into its
    /// control message, stopping at a close.
    fn pump_frame_messages(&mut self) -> (r: HandlerStep)
        ensures
            identity_unchanged(*old(self), *final(self)),
            final(self).outbound@ == old(self).outbound@,
            final(self).peer_key == old(self).peer_key,
            final(self).state == old(self).state,
            ({
                let pumped = pump_frames(
                    old(self).inbound@,
                    old(self).max_frame_len as nat,
                    old(self).token,
                );
                &&& messages_view(r.messages@) == pumped.0
                &&& final(self).inbound@ == pumped.1
                &&& r.done == pumped.2
            }),
    {
        let ghost fed = self.inbound@;
        let ghost maxn = self.max_frame_len as nat;
        let ghost tk = self.token;
        let mut messages: Vec<EventMessage> = Vec::new();
        let mut closed = false;
        proof {
            assert(messages_view(messages@) =~= Seq::<EventMessageView>::empty());
        }
        loop
            invariant_except_break
                closed == false,
                identity_unchanged(*old(self), *self),
                self.outbound@ == old(self).outbound@,
                self.peer_key == old(self).peer_key,
                self.state == old(self).state,
                maxn == self.max_frame_len as nat,
                tk == self.token,
                pump_frames(fed, maxn, tk).0 == messages_view(messages@) + pump_frames(
                    self.inbound@,
                    maxn,
                    tk,
                ).0,
                pump_frames(fed, maxn, tk).1 == pump_frames(self.inbound@, maxn, tk).1,
                pump_frames(fed, maxn, tk).2 == pump_frames(self.inbound@, maxn, tk).2,
            ensures
                identity_unchanged(*old(self), *self),
                self.outbound@ == old(self).outbound@,
                self.peer_key == old(self).peer_key,
                self.state == old(self).state,
                pump_frames(fed, maxn, tk).0 == messages_view(messages@),
                pump_frames(fed, maxn, tk).1 == self.inbound@,
                pump_frames(fed, maxn, tk).2 == closed,
            decreases self.inbound@.len(),
        {
            let ghost pre = self.inbound@;
            let step = decode(self.inbound.as_vec(), self.max_frame_len);
            match step {
                Err(DecodeError::Incomplete) => {
                    proof {
                        assert(pump_frames(pre, maxn, tk) == (
                            Seq::<EventMessageView>::empty(),
                            pre,
                            false,
                        ));
                        assert(messages_view(messages@) + Seq::<EventMessageView>::empty()
                            =~= messages_view(messages@));
                    }
                    break ;
                },
                Err(_) => {
                    messages.push(EventMessage::Close(self.token));
                    closed = true;
                    proof {
                        assert(pump_frames(pre, maxn, tk) == (
                            seq![EventMessageView::Close(tk)],
                            pre,
                            true,
                        ));
                        assert(messages_view(messages@) =~= messages_view(
                            messages@.drop_last(),
                        ) + seq![EventMessageView::Close(tk)]);
                    }
                    break ;
                },
                Ok((frame, used)) => {
                    self.inbound.drain_prefix(used);
                    let ghost rest = self.inbound@;
                    proof {
                        assert(rest =~= pre.skip(used as int));
                    }
                    let opcode = frame.opcode;
                    match opcode {
                        OpCode::TextFrame => {
                            let ghost fv = frame@;
                            match bytes_to_string(frame.payload) {
                                Some(text) => {
                                    messages.push(EventMessage::TextFrame(self.token, text));
                                    proof {
                                        lemma_message_push(
                                            messages@,
                                            EventMessageView::TextFrame(
                                                tk,
                                                decode_utf8(fv.payload),
                                            ),
                                        );
                                    }
                                },
                                None => {
                                    messages.push(EventMessage::Close(self.token));
                                    closed = true;
                                    proof {
                                        lemma_message_push(
                                            messages@,
                                            EventMessageView::Close(tk),
                                        );
                                    }
                                    break ;
                                },
                            }
                        },
                        OpCode::BinaryFrame => {
                            let ghost fv = frame@;
                            messages.push(EventMessage::BinaryFrame(self.token, frame.payload));
                            proof {
                                lemma_message_push(
                                    messages@,
                                    EventMessageView::BinaryFrame(tk, fv.payload),
                                );
                            }
                        },
                        OpCode::Ping => {
                            let ghost fv = frame@;
                            messages.push(EventMessage::Ping(self.token, frame));
                            proof {
                                lemma_message_push(messages@, EventMessageView::Ping(tk, fv));
                            }
                        },
                        OpCode::Pong => {
                            let ghost fv = frame@;
                            messages.push(EventMessage::Pong(self.token, frame.payload));
                            proof {
                                lemma_message_push(
                                    messages@,
                                    EventMessageView::Pong(tk, fv.payload),
                                );
                            }
                        },
                        OpCode::ConnectionClose => {
                            messages.push(EventMessage::Close(self.token));
                            closed = true;
                            proof {
                                lemma_message_push(messages@, EventMessageView::Close(tk));
                            }
                            break ;
                        },
                        OpCode::Continuation => {
                            messages.push(EventMessage::Close(self.token));
                            closed = true;
                            proof {
                                lemma_message_push(messages@, EventMessageView::Close(tk));
                            }
                            break ;
                        },
                    }
                },
            }
        }
        HandlerStep { messages, done: closed }
    }

    /// Pumps every complete line out of `inbound` (line mode), translating
    /// each into a text message, stopping at a line that is not UTF-8.
    fn pump_line_messages(&mut self) -> (r: HandlerStep)
        ensures
            identity_unchanged(*old(self), *final(self)),
            final(self).outbound@ == old(self).outbound@,
            final(self).peer_key == old(self).peer_key,
            final(self).state == old(self).state,
            ({
                let pumped = pump_lines(old(self).inbound@, old(self).token);
                &&& messages_view(r.messages@) == pumped.0
                &&& final(self).inbound@ == pumped.1
                &&& r.done == pumped.2
            }),
    {
        let ghost fed = self.inbound@;
        let ghost tk = self.token;
        let mut messages: Vec<EventMessage> = Vec::new();
        let mut closed = false;
        proof {
            assert(messages_view(messages@) =~= Seq::<EventMessageView>::empty());
        }
        loop
            invariant_except_break
                closed == false,
                identity_unchanged(*old(self), *self),
                self.outbound@ == old(self).outbound@,
                self.peer_key == old(self).peer_key,
                self.state == old(self).state,
                tk == self.token,
                pump_lines(fed, tk).0 == messages_view(messages@) + pump_lines(
                    self.inbound@,
                    tk,
                ).0,
                pump_lines(fed, tk).1 == pump_lines(self.inbound@, tk).1,
                pump_lines(fed, tk).2 == pump_lines(self.inbound@, tk).2,
            ensures
                identity_unchanged(*old(self), *self),
                self.outbound@ == old(self).outbound@,
                self.peer_key == old(self).peer_key,
                self.state == old(self).state,
                pump_lines(fed, tk).0 == messages_view(messages@),
                pump_lines(fed, tk).1 == self.inbound@,
                pump_lines(fed, tk).2 == closed,
            decreases self.inbound@.len(),
        {
            let ghost pre = self.inbound@;
            proof {
                pre.index_of_first_ensures(10u8);
            }
            let inb_len = self.inbound.len();
            match self.inbound.find_byte(10u8) {
                None => {
                    proof {
                        assert(pre.index_of_first(10u8) is None);
                        assert(messages_view(messages@) + Seq::<EventMessageView>::empty()
                            =~= messages_view(messages@));
                    }
                    break ;
                },
                Some(i) => {
                    proof {
                        assert(pre.index_of_first(10u8) == Some(i as int));
                        assert(i < inb_len);
                    }
                    let line = self.copy_inbound_prefix(i);
                    self.inbound.drain_prefix(i + 1);
                    proof {
                        assert(self.inbound@ =~= pre.skip(i + 1));
                    }
                    match bytes_to_string(line) {
                        Some(text) => {
                            messages.push(EventMessage::TextFrame(self.token, text));
                            proof {
                                lemma_message_push(
                                    messages@,
                                    EventMessageView::TextFrame(
                                        tk,
                                        decode_utf8(pre.subrange(0, i as int)),
                                    ),
                                );
                            }
                        },
                        None => {
                            messages.push(EventMessage::Close(self.token));
                            closed = true;
                            proof {
                                lemma_message_push(messages@, EventMessageView::Close(tk));
                            }
                            break ;
                        },
                    }
                },
            }
        }
        HandlerStep { messages, done: closed }
    }

    /// A copy of the first `n` inbound bytes.
    fn copy_inbound_prefix(&self, n: usize) -> (r: Vec<u8>)
        requires
            n <= self.inbound@.len(),
        ensures
            r@ == self.inbound@.subrange(0, n as int),
    {
        let src = self.inbound.as_vec();
        let mut r: Vec<u8> = Vec::new();
        let mut i: usize = 0;
        while i < n
            invariant
                i <= n,
                n <= src@.len(),
                src@ == self.inbound@,
                r@ == self.inbound@.subrange(0, i as int),
            decreases n - i,
        {
            r.push(src[i]);
            i = i + 1;
            proof {
                assert(r@ =~= self.inbound@.subrange(0, i as int));
            }
        }
        r
    }

    /// Drives one outcome of the non-blocking write loop: drop what was
    /// written from the front of `outbound` and retry at once on a short
    /// write; when the flush completes, advance the state and re-arm.
    pub fn handle_writable(&mut self, outcome: WriteOutcome) -> (r: HandlerStep)
        requires
            write_in_step(old(self).state),
            outcome matches WriteOutcome::Wrote(n) ==> n <= old(self).outbound@.len(),
        ensures
            identity_unchanged(*old(self), *final(self)),
            final(self).inbound@ == old(self).inbound@,
            final(self).peer_key == old(self).peer_key,
            match outcome {
                WriteOutcome::WouldBlock => messages_view(r.messages@) == seq![
                    EventMessageView::ReArm(old(self).token),
                ] && r.done && final(self).outbound@ == old(self).outbound@ && final(self).state
                    == old(self).state,
                WriteOutcome::Interrupted => messages_view(r.messages@) == Seq::<
                    EventMessageView,
                >::empty() && !r.done && final(self).outbound@ == old(self).outbound@ && final(self).state == old(self).state,
                WriteOutcome::TransportError => messages_view(r.messages@) == seq![
                    EventMessageView::Close(old(self).token),
                ] && r.done && final(self).outbound@ == old(self).outbound@ && final(self).state
                    == old(self).state,
                WriteOutcome::Wrote(n) => {
                    if n == 0 {
                        messages_view(r.messages@) == seq![
                            EventMessageView::ReArm(old(self).token),
                        ] && r.done && final(self).outbound@ == old(self).outbound@ && final(self).state == old(self).state
                    } else if n == old(self).outbound@.len() {
                        messages_view(r.messages@) == seq![
                            EventMessageView::ReArm(old(self).token),
                        ] && r.done && final(self).outbound@ == Seq::<u8>::empty() && final(self).state == next_state(old(self).state)
                    } else {
                        messages_view(r.messages@) == Seq::<EventMessageView>::empty() && !r.done
                            && final(self).outbound@ == old(self).outbound@.skip(n as int)
                            && final(self).state == old(self).state
                    }
                },
            },
    {
        match outcome {
            WriteOutcome::WouldBlock => self.rearm_step(),
            WriteOutcome::Interrupted => HandlerStep { messages: Vec::new(), done: false },
            WriteOutcome::TransportError => self.close_step(),
            WriteOutcome::Wrote(n) => {
                if n == 0 {
                    self.rearm_step()
                } else if n == self.outbound.len() {
                    self.outbound.clear();
                    self.state = self.state.next();
                    self.rearm_step()
                } else {
                    self.outbound.drain_prefix(n);
                    HandlerStep { messages: Vec::new(), done: false }
                }
            },
        }
    }
}

impl Client {
    /// Completes the handshake: computes the accept token from the stored
    /// key, queues the 101 response, discards the key and the buffered header
    /// bytes, and advances to `HandshakeResponse`. A connection whose parser
    /// signalled an upgrade without having supplied a key is closed, never
    /// aborted. Called when the header parser reports an upgrade request.
    pub fn on_upgrade(&mut self) -> (r: HandlerStep)
        ensures
            identity_unchanged(*old(self), *final(self)),
            r.done,
            if old(self).state != ClientState::AwaitingHandshake {
                client_unchanged(*old(self), *final(self)) && messages_view(r.messages@) == seq![
                    EventMessageView::ReArm(old(self).token),
                ]
            } else {
                match old(self).peer_key {
                    None => client_unchanged(*old(self), *final(self)) && messages_view(
                        r.messages@,
                    ) == seq![EventMessageView::Close(old(self).token)],
                    Some(key) => {
                        &&& final(self).state == ClientState::HandshakeResponse
                        &&& final(self).outbound@ == old(self).outbound@
                            + upgrade_response_bytes(key@)
                        &&& final(self).inbound@ == Seq::<u8>::empty()
                        &&& final(self).peer_key is None
                        &&& messages_view(r.messages@) == seq![
                            EventMessageView::ReArm(old(self).token),
                        ]
                    },
                }
            },
    {
        if !matches!(self.state, ClientState::AwaitingHandshake) {
            return self.out_of_step();
        }
        match self.peer_key.take() {
            None => self.close_step(),
            Some(key) => {
                let response = upgrade_response(&key);
                self.outbound.append_vec(&response);
                self.inbound.clear();
                self.state = self.state.next();
                self.rearm_step()
            },
        }
    }
}

/// The number of write calls a transport accepting at most `k` bytes per
/// call takes to drain a buffer of `len` bytes, each call dropping the
/// accepted prefix as `handle_writable` does on a short write.
pub open spec fn write_calls_needed(len: nat, k: nat) -> nat
    decreases len,
{
    if len == 0 {
        0
    } else if k == 0 {
        0
    } else if len <= k {
        1
    } else {
        1 + write_calls_needed((len - k) as nat, k)
    }
}

/// Partial write convergence: a transport that accepts `k > 0` bytes per
/// call fully drains an outbound buffer of `len` bytes within exactly
/// ceil(len / k) write calls; the final call completes the flush, upon which
/// `handle_writable` reverts the state to `Running`.
pub proof fn lemma_partial_write_convergence(len: nat, k: nat)
    requires
        k > 0,
    ensures
        write_calls_needed(len, k) == (len + k - 1) / (k as int),
    decreases len,
{
    if len == 0 {
        vstd::arithmetic::div_mod::lemma_basic_div_specific_divisor(k as int);
        assert((k - 1) as int / (k as int) == 0);
    } else if len <= k {
        vstd::arithmetic::div_mod::lemma_div_plus_one((len - 1) as int, k as int);
        vstd::arithmetic::div_mod::lemma_basic_div_specific_divisor(k as int);
        assert((len - 1) as int / (k as int) == 0);
        assert((len + k - 1) / (k as int) == 1);
    } else {
        lemma_partial_write_convergence((len - k) as nat, k);
        vstd::arithmetic::div_mod::lemma_div_plus_one((len - 1) as int, k as int);
    }
}

/// Pushing a message appends its view.
proof fn lemma_message_push(after: Seq<EventMessage>, v: EventMessageView)
    requires
        after.len() > 0,
        after.last()@ == v,
    ensures
        messages_view(after) == messages_view(after.drop_last()) + seq![v],
{
    assert(messages_view(after) =~= messages_view(after.drop_last()) + seq![v]);
}

} // verus!
