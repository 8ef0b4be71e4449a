//! One ping session: the decisions of the exchange, taken event by event.
//!
//! The session does no I/O of its own. Its driver opens the connection, then
//! hands each outcome to `PingSession::step` as an `Event` and performs the
//! `Action` that comes back, until that action ends the session.

use vstd::prelude::*;
use vstd::string::StringSliceAdditionalSpecFns;
use vstd::utf8::encode_utf8;
use crate::error::PingError;
use crate::frame::{frame_bytes, pack_data, MAX_PAYLOAD_LEN};
use crate::packets::{
    handshake_bytes, handshake_payload, response_json, status_json, status_request_bytes,
    status_request_payload, MAX_HOST_LEN,
};
use crate::status::{decode_status, names_view, status_names};
use crate::varint::{
    decode_var_int, encode_var_int, lemma_var_int_bytes_shape, lemma_var_int_end_bounds,
    lemma_var_int_round_trip, unpack_var_int, MAX_VAR_INT_LEN,
};

verus! {

/// How far a session has come.
#[derive(Debug, Clone, Copy, PartialEq, Eq, Structural)]
pub enum Phase {
    /// Nothing has happened yet: the connection is to be opened.
    Disconnected,
    /// The connection is open and the handshake is being written.
    Connected,
    /// The handshake is written and the status request is being written.
    HandshakeSent,
    /// Both packets are written and the response is being read.
    StatusRequested,
    /// The response's payload is in hand and waits to be decoded.
    StatusReceived,
    /// The session ended with a player list.
    Done,
    /// The session ended with an error.
    Failed,
}

/// What the driver reports to the session.
#[derive(Debug, Clone, PartialEq, Eq)]
pub enum Event {
    /// The connection was opened.
    Connected,
    /// The bytes of the last `Action::Send` were written in full.
    Sent,
    /// Bytes were read for the last `Action::Receive`.
    Received(Vec<u8>),
    /// The stream ended before the bytes asked for had come.
    EndOfStream,
    /// Opening, writing or reading failed.
    IoFailed,
}

/// What the session asks of its driver.
#[derive(Debug, PartialEq, Eq)]
pub enum Action {
    /// Write these bytes in full, then report `Event::Sent`.
    Send(Vec<u8>),
    /// Read exactly this many bytes, then report them in `Event::Received`.
    Receive(usize),
    /// Close the connection: the session ended with these player names.
    Succeed(Vec<String>),
    /// Close the connection: the session ended with this error.
    Fail(PingError),
    /// Nothing is left to do: the session had ended before.
    Idle,
}

/// An event as a mathematical value.
pub enum EventView {
    /// The connection was opened.
    Connected,
    /// The bytes were written.
    Sent,
    /// These bytes were read.
    Received(Seq<u8>),
    /// The stream ended before the bytes asked for had come.
    EndOfStream,
    /// Opening, writing or reading failed.
    IoFailed,
}

/// An action as a mathematical value.
pub enum ActionView {
    /// Write these bytes.
    Send(Seq<u8>),
    /// Read this many bytes.
    Receive(nat),
    /// The session ended with these player names.
    Succeed(Seq<Seq<char>>),
    /// The session ended with this error.
    Fail(PingError),
    /// The session had ended before.
    Idle,
}

/// A session as a mathematical value.
pub struct SessionState {
    /// The host to ask.
    pub host: Seq<char>,
    /// The port to ask on.
    pub port: u16,
    /// How far the session has come.
    pub phase: Phase,
    /// The bytes read so far of the response's length prefix.
    pub prefix: Seq<u8>,
    /// The length that the prefix announced, once it is complete.
    pub body_length: Option<nat>,
    /// The response's payload, once it is in hand.
    pub payload: Seq<u8>,
}

impl View for Event {
    type V = EventView;

    open spec fn view(&self) -> EventView {
        match self {
            Event::Connected => EventView::Connected,
            Event::Sent => EventView::Sent,
            Event::Received(bytes) => EventView::Received(bytes@),
            Event::EndOfStream => EventView::EndOfStream,
            Event::IoFailed => EventView::IoFailed,
        }
    }
}

impl View for Action {
    type V = ActionView;

    open spec fn view(&self) -> ActionView {
        match self {
            Action::Send(bytes) => ActionView::Send(bytes@),
            Action::Receive(n) => ActionView::Receive(*n as nat),
            Action::Succeed(names) => ActionView::Succeed(names_view(names@)),
            Action::Fail(error) => ActionView::Fail(*error),
            Action::Idle => ActionView::Idle,
        }
    }
}

/// The state of a new session for `host` and `port`.
pub open spec fn opening(host: Seq<char>, port: u16) -> SessionState {
    SessionState {
        host,
        port,
        phase: Phase::Disconnected,
        prefix: Seq::empty(),
        body_length: None,
        payload: Seq::empty(),
    }
}

/// The session `s` ended by `error`.
pub open spec fn failed(s: SessionState, error: PingError) -> (SessionState, ActionView) {
    (SessionState { phase: Phase::Failed, ..s }, ActionView::Fail(error))
}

/// The session `s` with the response's payload in hand.
pub open spec fn received(s: SessionState, payload: Seq<u8>) -> SessionState {
    SessionState { phase: Phase::StatusReceived, payload, ..s }
}

/// What the payload of a status response comes to: the player names that
/// its JSON text lists, a protocol error where the text cannot be taken out
/// of the payload, a payload error where the text is no status document.
pub open spec fn outcome(payload: Seq<u8>) -> Result<Seq<Seq<char>>, PingError> {
    match response_json(payload) {
        Some(json) => match status_names(json) {
            Some(names) => Ok(names),
            None => Err(PingError::PayloadError),
        },
        None => Err(PingError::ProtocolError),
    }
}

/// The session `s`, which has the payload in hand, ended by what the
/// payload comes to.
pub open spec fn concluded(s: SessionState) -> (SessionState, ActionView) {
    match outcome(s.payload) {
        Ok(names) => (SessionState { phase: Phase::Done, ..s }, ActionView::Succeed(names)),
        Err(error) => failed(s, error),
    }
}

/// The session `s`, which reads the response, after `bytes` came in.
///
/// While the length prefix is incomplete, one byte is expected at a time:
/// it joins the prefix. A prefix that decodes announces the payload's
/// length, which is asked for next; a negative length, or five bytes that do
/// not decode, end the session. Once the length is known, exactly that many
/// bytes are expected: they are the payload, and the session is concluded.
pub open spec fn after_bytes(s: SessionState, bytes: Seq<u8>) -> (SessionState, ActionView) {
    match s.body_length {
        None => if bytes.len() != 1 {
            failed(s, PingError::ProtocolError)
        } else {
            let read = SessionState { prefix: s.prefix + bytes, ..s };
            match decode_var_int(read.prefix) {
                Some((len, _)) => if len < 0 {
                    failed(read, PingError::ProtocolError)
                } else {
                    (
                        SessionState { body_length: Some(len as nat), ..read },
                        ActionView::Receive(len as nat),
                    )
                },
                None => if read.prefix.len() >= 5 {
                    failed(read, PingError::ProtocolError)
                } else {
                    (read, ActionView::Receive(1))
                },
            }
        },
        Some(n) => if bytes.len() != n {
            failed(s, PingError::ProtocolError)
        } else {
            concluded(received(s, bytes))
        },
    }
}

/// The session after an event, and the action it asks for.
///
/// A session that has ended stays as it is. An I/O failure ends the session
/// with a connection error. Otherwise each phase expects one event and moves
/// on with it; any other event, the end of the stream among them, ends the
/// session with a protocol error.
pub open spec fn next(s: SessionState, event: EventView) -> (SessionState, ActionView) {
    match (s.phase, event) {
        (Phase::Done, _) | (Phase::Failed, _) => (s, ActionView::Idle),
        (_, EventView::IoFailed) => failed(s, PingError::ConnectionError),
        (Phase::Disconnected, EventView::Connected) => (
            SessionState { phase: Phase::Connected, ..s },
            ActionView::Send(frame_bytes(handshake_bytes(encode_utf8(s.host), s.port))),
        ),
        (Phase::Connected, EventView::Sent) => (
            SessionState { phase: Phase::HandshakeSent, ..s },
            ActionView::Send(frame_bytes(status_request_bytes())),
        ),
        (Phase::HandshakeSent, EventView::Sent) => (
            SessionState { phase: Phase::StatusRequested, ..s },
            ActionView::Receive(1),
        ),
        (Phase::StatusRequested, EventView::Received(bytes)) => after_bytes(s, bytes),
        _ => failed(s, PingError::ProtocolError),
    }
}

/// Decodes the payload of a status response: takes the JSON text out of it
/// and reads the player names that the text lists.
pub fn decode_response(payload: &[u8]) -> (res: Result<Vec<String>, PingError>)
    ensures
        match outcome(payload@) {
            Ok(names) => res matches Ok(found) && names_view(found@) == names,
            Err(error) => res matches Err(e) && e == error,
        },
{
    match status_json(payload) {
        Ok(json) => decode_status(json.as_slice()),
        Err(error) => Err(error),
    }
}

/// The state of one ping session.
#[derive(Debug)]
pub struct PingSession {
    host: String,
    port: u16,
    phase: Phase,
    prefix: Vec<u8>,
    body_length: Option<usize>,
    payload: Vec<u8>,
}

impl View for PingSession {
    type V = SessionState;

    closed spec fn view(&self) -> SessionState {
        SessionState {
            host: self.host@,
            port: self.port,
            phase: self.phase,
            prefix: self.prefix@,
            body_length: match self.body_length {
                Some(n) => Some(n as nat),
                None => None,
            },
            payload: self.payload@,
        }
    }
}

impl PingSession {
    /// A session is well formed when its host name is short enough for the
    /// handshake to fit a frame.
    pub open spec fn wf(&self) -> bool {
        encode_utf8(self@.host).len() <= MAX_HOST_LEN
    }

    /// A session for `host` and `port`, with nothing done yet. Its driver
    /// opens the connection and reports how that went.
    pub fn new(host: String, port: u16) -> (session: PingSession)
        requires
            encode_utf8(host@).len() <= MAX_HOST_LEN,
        ensures
            session.wf(),
            session@ == opening(host@, port),
    {
        PingSession {
            host,
            port,
            phase: Phase::Disconnected,
            prefix: Vec::new(),
            body_length: None,
            payload: Vec::new(),
        }
    }

    /// A session for `host` and `port`, where the host name is short enough
    /// for a handshake; a connection error where it is not, as no such host
    /// can be reached.
    pub fn try_new(host: String, port: u16) -> (res: Result<PingSession, PingError>)
        ensures
            match res {
                Ok(session) => {
                    &&& encode_utf8(host@).len() <= MAX_HOST_LEN
                    &&& session.wf()
                    &&& session@ == opening(host@, port)
                },
                Err(error) => {
                    &&& encode_utf8(host@).len() > MAX_HOST_LEN
                    &&& error == PingError::ConnectionError
                },
            },
    {
        if host.as_str().as_bytes().len() <= MAX_HOST_LEN {
            Ok(PingSession::new(host, port))
        } else {
            Err(PingError::ConnectionError)
        }
    }

    /// The host that the session asks.
    pub fn host(&self) -> (host: &str)
        ensures
            host@ == self@.host,
    {
        self.host.as_str()
    }

    /// The port that the session asks on.
    pub fn port(&self) -> (port: u16)
        ensures
            port == self@.port,
    {
        self.port
    }

    /// How far the session has come.
    pub fn phase(&self) -> (phase: Phase)
        ensures
            phase == self@.phase,
    {
        self.phase
    }

    /// Ends the session with `error`.
    fn fail(&mut self, error: PingError) -> (action: Action)
        ensures
            (final(self)@, action@) == failed(old(self)@, error),
    {
        self.phase = Phase::Failed;
        Action::Fail(error)
    }

    /// Takes the payload of the response in hand, decodes it and ends the
    /// session with what it comes to.
    fn conclude(&mut self, payload: Vec<u8>) -> (action: Action)
        ensures
            (final(self)@, action@) == concluded(received(old(self)@, payload@)),
    {
        self.payload = payload;
        self.phase = Phase::StatusReceived;
        match decode_response(self.payload.as_slice()) {
            Ok(names) => {
                self.phase = Phase::Done;
                Action::Succeed(names)
            },
            Err(error) => self.fail(error),
        }
    }

    /// Takes in bytes of the response: a byte of the length prefix, or the
    /// payload.
    fn take_bytes(&mut self, bytes: Vec<u8>) -> (action: Action)
        ensures
            (final(self)@, action@) == after_bytes(old(self)@, bytes@),
    {
        match self.body_length {
            None => {
                if bytes.len() != 1 {
                    return self.fail(PingError::ProtocolError);
                }
                let ghost before = self.prefix@;
                self.prefix.push(bytes[0]);
                proof {
                    assert(self.prefix@ =~= before + bytes@);
                }
                match unpack_var_int(self.prefix.as_slice()) {
                    Ok((len, _)) => {
                        if len < 0 {
                            self.fail(PingError::ProtocolError)
                        } else {
                            self.body_length = Some(len as usize);
                            Action::Receive(len as usize)
                        }
                    },
                    Err(_) => {
                        if self.prefix.len() >= MAX_VAR_INT_LEN {
                            self.fail(PingError::ProtocolError)
                        } else {
                            Action::Receive(1)
                        }
                    },
                }
            },
            Some(n) => {
                if bytes.len() != n {
                    self.fail(PingError::ProtocolError)
                } else {
                    self.conclude(bytes)
                }
            },
        }
    }

    /// Takes in an event and says what to do next.
    pub fn step(&mut self, event: Event) -> (action: Action)
        requires
            old(self).wf(),
        ensures
            final(self).wf(),
            (final(self)@, action@) == next(old(self)@, event@),
    {
        match self.phase {
            Phase::Done | Phase::Failed => {
                return Action::Idle;
            },
            _ => {},
        }
        match event {
            Event::IoFailed => self.fail(PingError::ConnectionError),
            Event::Connected => match self.phase {
                Phase::Disconnected => {
                    self.phase = Phase::Connected;
                    let payload = handshake_payload(self.host.as_str(), self.port);
                    Action::Send(pack_data(payload.as_slice()))
                },
                _ => self.fail(PingError::ProtocolError),
            },
            Event::Sent => match self.phase {
                Phase::Connected => {
                    self.phase = Phase::HandshakeSent;
                    let payload = status_request_payload();
                    Action::Send(pack_data(payload.as_slice()))
                },
                Phase::HandshakeSent => {
                    self.phase = Phase::StatusRequested;
                    Action::Receive(1)
                },
                _ => self.fail(PingError::ProtocolError),
            },
            Event::Received(bytes) => match self.phase {
                Phase::StatusRequested => self.take_bytes(bytes),
                _ => self.fail(PingError::ProtocolError),
            },
            Event::EndOfStream => self.fail(PingError::ProtocolError),
        }
    }
}

/// The place of a phase in the order in which a session passes through
/// them; both ends of a session stand last.
pub open spec fn rank(phase: Phase) -> nat {
    match phase {
        Phase::Disconnected => 0,
        Phase::Connected => 1,
        Phase::HandshakeSent => 2,
        Phase::StatusRequested => 3,
        Phase::StatusReceived => 4,
        Phase::Done => 5,
        Phase::Failed => 5,
    }
}

/// Whether a session in this phase has ended.
pub open spec fn ended(phase: Phase) -> bool {
    phase == Phase::Done || phase == Phase::Failed
}

/// A session that has ended stays as it is and asks for nothing, whatever
/// the event.
pub proof fn lemma_ended_stays(s: SessionState, event: EventView)
    requires
        ended(s.phase),
    ensures
        next(s, event) == (s, ActionView::Idle),
{
}

/// A session never goes back, and keeps its host and port. Short of its
/// end it moves at most one phase on. The action names the end: with
/// player names the session is done, with an error it has failed, and any
/// other action leaves it running.
pub proof fn lemma_next_is_linear(s: SessionState, event: EventView)
    ensures
        rank(next(s, event).0.phase) >= rank(s.phase),
        !ended(next(s, event).0.phase) ==> rank(next(s, event).0.phase) <= rank(s.phase) + 1,
        next(s, event).0.host == s.host,
        next(s, event).0.port == s.port,
        next(s, event).1 is Succeed <==> next(s, event).0.phase == Phase::Done && s.phase
            != Phase::Done,
        next(s, event).1 is Fail <==> next(s, event).0.phase == Phase::Failed && s.phase
            != Phase::Failed,
{
}

/// An I/O failure ends every running session with a connection error; the
/// end of the stream ends it with a protocol error.
pub proof fn lemma_failures_abort(s: SessionState)
    requires
        !ended(s.phase),
    ensures
        next(s, EventView::IoFailed) == failed(s, PingError::ConnectionError),
        next(s, EventView::EndOfStream) == failed(s, PingError::ProtocolError),
{
}

/// The session `s`, which waits for `wanted` bytes, after its driver has
/// served that request and every further one from `stream`: the state it
/// ends in, and the first action that asks for no bytes. A request that
/// `stream` cannot fill is answered with the end of the stream.
pub open spec fn fed(s: SessionState, wanted: nat, stream: Seq<u8>) -> (SessionState, ActionView)
    decreases stream.len(),
{
    if stream.len() < wanted {
        next(s, EventView::EndOfStream)
    } else {
        let (t, action) = next(s, EventView::Received(stream.take(wanted as int)));
        match action {
            ActionView::Receive(n) => if wanted > 0 {
                fed(t, n, stream.skip(wanted as int))
            } else {
                (t, action)
            },
            _ => (t, action),
        }
    }
}

/// A session that reads the response, with `read` bytes of the length
/// prefix of `payload` behind it.
pub open spec fn reading(s: SessionState, payload: Seq<u8>, read: int) -> SessionState {
    SessionState {
        phase: Phase::StatusRequested,
        prefix: encode_var_int(payload.len() as i32).take(read),
        body_length: None,
        ..s
    }
}

/// A session that reads the response, with the whole length prefix of
/// `payload` behind it and the payload still to come.
pub open spec fn awaiting(s: SessionState, payload: Seq<u8>) -> SessionState {
    SessionState {
        phase: Phase::StatusRequested,
        prefix: encode_var_int(payload.len() as i32),
        body_length: Some(payload.len()),
        ..s
    }
}

/// A session that has read part of the length prefix of a framed payload
/// and takes in the next byte of it asks for one byte more while the prefix
/// is incomplete, and for the payload once it is complete.
pub proof fn lemma_prefix_byte(s: SessionState, payload: Seq<u8>, read: int)
    requires
        payload.len() <= MAX_PAYLOAD_LEN,
        0 <= read < encode_var_int(payload.len() as i32).len(),
    ensures
        next(
            reading(s, payload, read),
            EventView::Received(seq![encode_var_int(payload.len() as i32)[read]]),
        ) == if read + 1 < encode_var_int(payload.len() as i32).len() {
            (reading(s, payload, read + 1), ActionView::Receive(1))
        } else {
            (awaiting(s, payload), ActionView::Receive(payload.len()))
        },
{
    let len = payload.len() as i32;
    let e = encode_var_int(len);
    let prefix = e.take(read + 1);
    lemma_var_int_bytes_shape(len as u32);
    assert(reading(s, payload, read).prefix + seq![e[read]] =~= prefix);
    if read + 1 < e.len() {
        lemma_var_int_end_bounds(prefix, 0);
    } else {
        assert(prefix =~= e);
        lemma_var_int_round_trip(len, Seq::empty());
        assert(e + Seq::<u8>::empty() =~= e);
    }
}

/// A session that has read part of the length prefix of a framed payload,
/// and is fed the rest of the frame, ends by what the payload comes to,
/// whatever follows the frame.
pub proof fn lemma_fed_frame(s: SessionState, payload: Seq<u8>, rest: Seq<u8>, read: int)
    requires
        payload.len() <= MAX_PAYLOAD_LEN,
        0 <= read < encode_var_int(payload.len() as i32).len(),
    ensures
        fed(reading(s, payload, read), 1, (frame_bytes(payload) + rest).skip(read)).1
            == concluded(received(s, payload)).1,
        fed(reading(s, payload, read), 1, (frame_bytes(payload) + rest).skip(read)).0.phase
            == concluded(received(s, payload)).0.phase,
    decreases encode_var_int(payload.len() as i32).len() - read,
{
    let e = encode_var_int(payload.len() as i32);
    let stream = (frame_bytes(payload) + rest).skip(read);
    lemma_prefix_byte(s, payload, read);
    assert(stream.take(1) =~= seq![e[read]]);
    assert(stream.skip(1) =~= (frame_bytes(payload) + rest).skip(read + 1));
    if read + 1 < e.len() {
        lemma_fed_frame(s, payload, rest, read + 1);
    } else {
        assert(stream.skip(1) =~= payload + rest);
        assert(stream.skip(1).take(payload.len() as int) =~= payload);
        assert(fed(awaiting(s, payload), payload.len(), stream.skip(1)) == next(
            awaiting(s, payload),
            EventView::Received(payload),
        ));
    }
}

/// A session that has read part of the length prefix of a framed payload,
/// and is fed a stream that ends within the frame, fails with a protocol
/// error.
pub proof fn lemma_fed_short(s: SessionState, payload: Seq<u8>, read: int, cut: int)
    requires
        payload.len() <= MAX_PAYLOAD_LEN,
        0 <= read < encode_var_int(payload.len() as i32).len(),
        read <= cut < frame_bytes(payload).len(),
    ensures
        fed(reading(s, payload, read), 1, frame_bytes(payload).take(cut).skip(read)).1
            == ActionView::Fail(PingError::ProtocolError),
        fed(reading(s, payload, read), 1, frame_bytes(payload).take(cut).skip(read)).0.phase
            == Phase::Failed,
    decreases encode_var_int(payload.len() as i32).len() - read,
{
    let e = encode_var_int(payload.len() as i32);
    let stream = frame_bytes(payload).take(cut).skip(read);
    if read < cut {
        lemma_prefix_byte(s, payload, read);
        assert(stream.take(1) =~= seq![e[read]]);
        assert(stream.skip(1) =~= frame_bytes(payload).take(cut).skip(read + 1));
        if read + 1 < e.len() {
            lemma_fed_short(s, payload, read + 1, cut);
        } else {
            assert(fed(awaiting(s, payload), payload.len(), stream.skip(1)) == next(
                awaiting(s, payload),
                EventView::EndOfStream,
            ));
        }
    }
}

/// A whole exchange: a new session whose connection opens, whose two
/// packets are written, and which is then fed `stream`.
pub open spec fn exchange(host: Seq<char>, port: u16, stream: Seq<u8>) -> (
    SessionState,
    ActionView,
) {
    let connected = next(opening(host, port), EventView::Connected).0;
    let handshake_sent = next(connected, EventView::Sent).0;
    let status_requested = next(handshake_sent, EventView::Sent).0;
    fed(status_requested, 1, stream)
}

/// A ping writes the framed handshake first and the framed status request
/// second, and then asks for the first byte of the response.
pub proof fn lemma_exchange_sends_both_packets(host: Seq<char>, port: u16)
    ensures
        ({
            let connected = next(opening(host, port), EventView::Connected);
            let handshake_sent = next(connected.0, EventView::Sent);
            let status_requested = next(handshake_sent.0, EventView::Sent);
            &&& connected.1 == ActionView::Send(
                frame_bytes(handshake_bytes(encode_utf8(host), port)),
            )
            &&& handshake_sent.1 == ActionView::Send(frame_bytes(status_request_bytes()))
            &&& status_requested.1 == ActionView::Receive(1)
            &&& status_requested.0 == SessionState {
                phase: Phase::StatusRequested,
                ..opening(host, port)
            }
        }),
{
}

/// A ping gives what the server's response comes to: where the server
/// sends a framed payload, the session ends with the player names that the
/// payload lists, or with the error that the payload earns, whatever the
/// server sends after it.
pub proof fn lemma_exchange_reads_the_response(
    host: Seq<char>,
    port: u16,
    payload: Seq<u8>,
    rest: Seq<u8>,
)
    requires
        payload.len() <= MAX_PAYLOAD_LEN,
    ensures
        exchange(host, port, frame_bytes(payload) + rest).1 == match outcome(payload) {
            Ok(names) => ActionView::Succeed(names),
            Err(error) => ActionView::Fail(error),
        },
        exchange(host, port, frame_bytes(payload) + rest).0.phase == match outcome(payload) {
            Ok(_) => Phase::Done,
            Err(_) => Phase::Failed,
        },
{
    let connected = next(opening(host, port), EventView::Connected).0;
    let handshake_sent = next(connected, EventView::Sent).0;
    let status_requested = next(handshake_sent, EventView::Sent).0;
    assert(encode_var_int(payload.len() as i32).take(0) =~= Seq::<u8>::empty());
    assert(status_requested == reading(status_requested, payload, 0));
    assert((frame_bytes(payload) + rest).skip(0) =~= frame_bytes(payload) + rest);
    lemma_var_int_bytes_shape(payload.len() as i32 as u32);
    lemma_fed_frame(status_requested, payload, rest, 0);
}

/// A ping fails with a protocol error where the server's stream ends
/// before the frame of the response is complete: at once, within the
/// length prefix, or within the payload.
pub proof fn lemma_exchange_fails_on_a_short_stream(
    host: Seq<char>,
    port: u16,
    payload: Seq<u8>,
    cut: int,
)
    requires
        payload.len() <= MAX_PAYLOAD_LEN,
        0 <= cut < frame_bytes(payload).len(),
    ensures
        exchange(host, port, frame_bytes(payload).take(cut)).1 == ActionView::Fail(
            PingError::ProtocolError,
        ),
        exchange(host, port, frame_bytes(payload).take(cut)).0.phase == Phase::Failed,
{
    let connected = next(opening(host, port), EventView::Connected).0;
    let handshake_sent = next(connected, EventView::Sent).0;
    let status_requested = next(handshake_sent, EventView::Sent).0;
    assert(encode_var_int(payload.len() as i32).take(0) =~= Seq::<u8>::empty());
    assert(status_requested == reading(status_requested, payload, 0));
    assert(frame_bytes(payload).take(cut).skip(0) =~= frame_bytes(payload).take(cut));
    lemma_var_int_bytes_shape(payload.len() as i32 as u32);
    lemma_fed_short(status_requested, payload, 0, cut);
}

} // verus!
