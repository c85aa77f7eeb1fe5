//! One client of the socket handler: a strict alternation of one request
//! frame read from the client and one response frame written back.
//!
//! The session decides; its caller performs each action on the client's
//! stream and the supervisor's queue, and reports what came of it.

use crate::codec::{decode_len, encode_len, frame_of, le_value, Direction, FrameLimits};
use crate::error::ErrorKind;
use vstd::prelude::*;

verus! {

/// Where a session stands in its cycle.
#[derive(Clone, Copy, Debug, PartialEq, Eq, Structural)]
pub enum SessionState {
    /// Waiting for the eight bytes of a request header.
    ReadingLen,
    /// Waiting for a request payload of this many bytes.
    ReadingBody(usize),
    /// The request is with the supervisor.
    AwaitingReply,
    /// The response is being written to the client.
    Writing,
    /// The session has ended, for this reason.
    Closed(ErrorKind),
}

/// What the caller reports to a session.
#[derive(Debug)]
pub enum SessionEvent {
    /// The eight bytes of a header were read.
    Header([u8; 8]),
    /// The buffer handed out for the payload was filled from the stream.
    Body(Vec<u8>),
    /// The supervisor answered.
    Reply(Vec<u8>),
    /// The response was written and flushed; its buffer comes back.
    Written(Vec<u8>),
    /// The client's stream ended or failed.
    PeerClosed,
    /// The supervisor's queue or the reply channel was closed.
    HelperGone,
}

/// What a session asks its caller to do next.
#[derive(Debug)]
pub enum SessionAction {
    /// Read exactly eight bytes and report them as `Header`.
    ReadHeader,
    /// Fill the whole buffer from the stream and report it as `Body`.
    ReadBody { buffer: Vec<u8> },
    /// Send the request to the supervisor with a fresh reply channel, wait
    /// for the answer and report it as `Reply`.
    Dispatch { request: Vec<u8> },
    /// Write the header, then the response, flush, and report `Written`
    /// with the response buffer.
    Write { header: [u8; 8], response: Vec<u8> },
    /// Drop the stream.
    Close { reason: ErrorKind },
}

/// An event as the contracts see it.
pub enum SessionInput {
    Header(Seq<u8>),
    Body(Seq<u8>),
    Reply(Seq<u8>),
    Written,
    PeerClosed,
    HelperGone,
}

/// An action as the contracts see it.
pub enum SessionOutput {
    ReadHeader,
    /// The buffer to fill: `len` zero bytes.
    ReadBody { len: nat },
    Dispatch { request: Seq<u8> },
    /// The bytes that go to the client, header first.
    Write { frame: Seq<u8> },
    Close { reason: ErrorKind },
}

impl View for SessionEvent {
    type V = SessionInput;

    open spec fn view(&self) -> SessionInput {
        match self {
            SessionEvent::Header(h) => SessionInput::Header(h@),
            SessionEvent::Body(b) => SessionInput::Body(b@),
            SessionEvent::Reply(r) => SessionInput::Reply(r@),
            SessionEvent::Written(_) => SessionInput::Written,
            SessionEvent::PeerClosed => SessionInput::PeerClosed,
            SessionEvent::HelperGone => SessionInput::HelperGone,
        }
    }
}

impl View for SessionAction {
    type V = SessionOutput;

    open spec fn view(&self) -> SessionOutput {
        match self {
            SessionAction::ReadHeader => SessionOutput::ReadHeader,
            SessionAction::ReadBody { buffer } => SessionOutput::ReadBody { len: buffer@.len() },
            SessionAction::Dispatch { request } => SessionOutput::Dispatch { request: request@ },
            SessionAction::Write { header, response } => SessionOutput::Write {
                frame: header@ + response@,
            },
            SessionAction::Close { reason } => SessionOutput::Close { reason: *reason },
        }
    }
}

/// The session's rule: the state and action that follow a state and an event,
/// with request payloads bounded by `max`.
///
/// An event that does not answer the action last given ends the session as a
/// framing error; an ended session stays ended.
pub open spec fn session_step(state: SessionState, max: nat, input: SessionInput) -> (
    SessionState,
    SessionOutput,
) {
    match (state, input) {
        (SessionState::Closed(reason), _) => (state, SessionOutput::Close { reason }),
        (_, SessionInput::PeerClosed) => closing(ErrorKind::PeerClosed),
        (_, SessionInput::HelperGone) => closing(ErrorKind::HelperGone),
        (SessionState::ReadingLen, SessionInput::Header(h)) => if le_value(h) > max {
            closing(ErrorKind::OversizedRequest)
        } else {
            (
                SessionState::ReadingBody(le_value(h) as usize),
                SessionOutput::ReadBody { len: le_value(h) },
            )
        },
        (SessionState::ReadingBody(expected), SessionInput::Body(b)) => if b.len() == expected {
            (SessionState::AwaitingReply, SessionOutput::Dispatch { request: b })
        } else {
            closing(ErrorKind::FramingError)
        },
        (SessionState::AwaitingReply, SessionInput::Reply(r)) => (
            SessionState::Writing,
            SessionOutput::Write { frame: frame_of(r) },
        ),
        (SessionState::Writing, SessionInput::Written) => (
            SessionState::ReadingLen,
            SessionOutput::ReadHeader,
        ),
        _ => closing(ErrorKind::FramingError),
    }
}

/// The end of a session for `reason`.
pub open spec fn closing(reason: ErrorKind) -> (SessionState, SessionOutput) {
    (SessionState::Closed(reason), SessionOutput::Close { reason })
}

/// The session of one client.
#[derive(Debug)]
pub struct ClientSession {
    limits: FrameLimits,
    state: SessionState,
    /// Kept between exchanges so that its allocation serves the next request.
    buffer: Vec<u8>,
}

impl ClientSession {
    /// The state of the session.
    pub closed spec fn spec_state(&self) -> SessionState {
        self.state
    }

    /// The bounds that the session was made with.
    pub closed spec fn spec_limits(&self) -> FrameLimits {
        self.limits
    }

    /// A session that waits for its first request header: the caller
    /// starts by reading one.
    pub fn new(limits: FrameLimits) -> (session: ClientSession)
        ensures
            session.spec_state() == SessionState::ReadingLen,
            session.spec_limits() == limits,
    {
        ClientSession { limits, state: SessionState::ReadingLen, buffer: Vec::new() }
    }

    pub fn state(&self) -> (state: SessionState)
        ensures
            state == self.spec_state(),
    {
        self.state
    }

    pub fn limits(&self) -> (limits: FrameLimits)
        ensures
            limits == self.spec_limits(),
    {
        self.limits
    }

    fn close(&mut self, reason: ErrorKind) -> (action: SessionAction)
        ensures
            (final(self).spec_state(), action@) == closing(reason),
            final(self).spec_limits() == old(self).spec_limits(),
    {
        self.state = SessionState::Closed(reason);
        SessionAction::Close { reason }
    }

    /// Takes the outcome of the action last given and says what to do next.
    pub fn step(&mut self, event: SessionEvent) -> (action: SessionAction)
        ensures
            (final(self).spec_state(), action@) == session_step(
                old(self).spec_state(),
                old(self).spec_limits().bound(Direction::Request),
                event@,
            ),
            final(self).spec_limits() == old(self).spec_limits(),
            action matches SessionAction::ReadBody { buffer } ==> forall|i: int|
                0 <= i < buffer@.len() ==> buffer@[i] == 0,
    {
        if let SessionState::Closed(reason) = self.state {
            return SessionAction::Close { reason };
        }
        match event {
            SessionEvent::PeerClosed => self.close(ErrorKind::PeerClosed),
            SessionEvent::HelperGone => self.close(ErrorKind::HelperGone),
            SessionEvent::Header(header) => match self.state {
                SessionState::ReadingLen => {
                    let declared: u64 = decode_len(&header);
                    match self.limits.check_len(Direction::Request, declared) {
                        Err(_) => self.close(ErrorKind::OversizedRequest),
                        Ok(len) => {
                            let mut buffer: Vec<u8> = Vec::new();
                            core::mem::swap(&mut buffer, &mut self.buffer);
                            buffer.clear();
                            buffer.resize(len, 0u8);
                            self.state = SessionState::ReadingBody(len);
                            SessionAction::ReadBody { buffer }
                        },
                    }
                },
                _ => self.close(ErrorKind::FramingError),
            },
            SessionEvent::Body(body) => match self.state {
                SessionState::ReadingBody(expected) => {
                    if body.len() == expected {
                        self.state = SessionState::AwaitingReply;
                        SessionAction::Dispatch { request: body }
                    } else {
                        self.close(ErrorKind::FramingError)
                    }
                },
                _ => self.close(ErrorKind::FramingError),
            },
            SessionEvent::Reply(response) => match self.state {
                SessionState::AwaitingReply => {
                    let header = encode_len(response.len() as u64);
                    self.state = SessionState::Writing;
                    SessionAction::Write { header, response }
                },
                _ => self.close(ErrorKind::FramingError),
            },
            SessionEvent::Written(buffer) => match self.state {
                SessionState::Writing => {
                    self.buffer = buffer;
                    self.state = SessionState::ReadingLen;
                    SessionAction::ReadHeader
                },
                _ => self.close(ErrorKind::FramingError),
            },
        }
    }
}

/// The actions of a session that starts in `state` and is given `inputs` in
/// turn.
pub open spec fn session_run(state: SessionState, max: nat, inputs: Seq<SessionInput>) -> Seq<
    SessionOutput,
>
    decreases inputs.len(),
{
    if inputs.len() == 0 {
        Seq::empty()
    } else {
        let (next, output) = session_step(state, max, inputs[0]);
        seq![output] + session_run(next, max, inputs.drop_first())
    }
}

/// The state of a session that started in `state` and was given `inputs`.
pub open spec fn session_after(state: SessionState, max: nat, inputs: Seq<SessionInput>) -> SessionState
    decreases inputs.len(),
{
    if inputs.len() == 0 {
        state
    } else {
        session_after(session_step(state, max, inputs[0]).0, max, inputs.drop_first())
    }
}

/// The requests that a sequence of actions hands to the supervisor, in order.
pub open spec fn dispatched(outputs: Seq<SessionOutput>) -> Seq<Seq<u8>>
    decreases outputs.len(),
{
    if outputs.len() == 0 {
        Seq::empty()
    } else {
        let rest = dispatched(outputs.drop_first());
        match outputs[0] {
            SessionOutput::Dispatch { request } => seq![request] + rest,
            _ => rest,
        }
    }
}

/// The frames that a sequence of actions writes to the client, in order.
pub open spec fn written(outputs: Seq<SessionOutput>) -> Seq<Seq<u8>>
    decreases outputs.len(),
{
    if outputs.len() == 0 {
        Seq::empty()
    } else {
        let rest = written(outputs.drop_first());
        match outputs[0] {
            SessionOutput::Write { frame } => seq![frame] + rest,
            _ => rest,
        }
    }
}

/// The answers of the supervisor among a sequence of events, in order.
pub open spec fn replies(inputs: Seq<SessionInput>) -> Seq<Seq<u8>>
    decreases inputs.len(),
{
    if inputs.len() == 0 {
        Seq::empty()
    } else {
        let rest = replies(inputs.drop_first());
        match inputs[0] {
            SessionInput::Reply(response) => seq![response] + rest,
            _ => rest,
        }
    }
}

/// The number of requests that a session in `state` has with the supervisor.
pub open spec fn in_flight(state: SessionState) -> nat {
    if state == SessionState::AwaitingReply {
        1
    } else {
        0
    }
}

/// What the first of a sequence of actions adds to the requests forwarded
/// and to the frames written.
proof fn lemma_outputs_cons(output: SessionOutput, rest: Seq<SessionOutput>)
    ensures
        dispatched(seq![output] + rest) == match output {
            SessionOutput::Dispatch { request } => seq![request] + dispatched(rest),
            _ => dispatched(rest),
        },
        written(seq![output] + rest) == match output {
            SessionOutput::Write { frame } => seq![frame] + written(rest),
            _ => written(rest),
        },
{
    assert((seq![output] + rest).drop_first() =~= rest);
}

/// An ended session neither forwards a request nor writes a response,
/// whatever it is given.
pub proof fn lemma_closed_session_is_silent(reason: ErrorKind, max: nat, inputs: Seq<SessionInput>)
    ensures
        dispatched(session_run(SessionState::Closed(reason), max, inputs)).len() == 0,
        written(session_run(SessionState::Closed(reason), max, inputs)).len() == 0,
        session_after(SessionState::Closed(reason), max, inputs) == SessionState::Closed(reason),
    decreases inputs.len(),
{
    if inputs.len() > 0 {
        let state = SessionState::Closed(reason);
        let (next, output) = session_step(state, max, inputs[0]);
        let rest = session_run(next, max, inputs.drop_first());
        lemma_closed_session_is_silent(reason, max, inputs.drop_first());
        lemma_outputs_cons(output, rest);
    }
}

/// Requests and responses alternate: counting the request that a session in
/// `state` has with the supervisor, it never writes back more responses than
/// it forwarded requests, and never forwards a request while another is
/// unanswered.
pub proof fn lemma_session_accounting(state: SessionState, max: nat, inputs: Seq<SessionInput>)
    ensures
        written(session_run(state, max, inputs)).len() <= in_flight(state) + dispatched(
            session_run(state, max, inputs),
        ).len(),
        in_flight(state) + dispatched(session_run(state, max, inputs)).len() <= written(
            session_run(state, max, inputs),
        ).len() + 1,
    decreases inputs.len(),
{
    if inputs.len() > 0 {
        let (next, output) = session_step(state, max, inputs[0]);
        let tail = inputs.drop_first();
        let rest = session_run(next, max, tail);
        lemma_session_accounting(next, max, tail);
        lemma_outputs_cons(output, rest);
        if let SessionState::Closed(reason) = next {
            lemma_closed_session_is_silent(reason, max, tail);
        }
    }
}

/// The responses written to a client are the supervisor's answers, framed,
/// in the order in which they came, and none is written twice or skipped.
pub proof fn lemma_session_writes_replies(state: SessionState, max: nat, inputs: Seq<SessionInput>)
    ensures
        written(session_run(state, max, inputs)).len() <= replies(inputs).len(),
        forall|k: int|
            0 <= k < written(session_run(state, max, inputs)).len() ==> written(
                session_run(state, max, inputs),
            )[k] == frame_of(#[trigger] replies(inputs)[k]),
    decreases inputs.len(),
{
    if inputs.len() > 0 {
        let (next, output) = session_step(state, max, inputs[0]);
        let tail = inputs.drop_first();
        let rest = session_run(next, max, tail);
        lemma_outputs_cons(output, rest);
        lemma_session_writes_replies(next, max, tail);
        if let SessionState::Closed(reason) = next {
            lemma_closed_session_is_silent(reason, max, tail);
        }
    }
}

/// From its start on, a session never has more than one request with the
/// supervisor, and it has written back one response for every other request
/// that it forwarded: the k-th response answers the k-th request.
pub proof fn lemma_session_alternates(max: nat, inputs: Seq<SessionInput>)
    ensures
        ({
            let outputs = session_run(SessionState::ReadingLen, max, inputs);
            written(outputs).len() <= dispatched(outputs).len() <= written(outputs).len() + 1
        }),
{
    lemma_session_accounting(SessionState::ReadingLen, max, inputs);
}

/// Where the socket handler gets its clients from.
#[derive(Debug)]
pub enum EntryPoint {
    /// It binds a listening socket at this path in the file system.
    ListenPath(String),
    /// It takes over a listening socket that was bound for it.
    ListenFd(i32),
    /// It takes over one stream that was connected for it.
    StreamFd(i32),
}

/// Why no entry point could be chosen.
#[derive(Clone, Copy, Debug, PartialEq, Eq, Structural)]
pub enum ConfigError {
    /// None of the three was given.
    NoEntryPoint,
    /// More than one of the three was given.
    ConflictingEntryPoints,
}

/// How many of the three entry points were given.
pub open spec fn entry_points_given(
    listen_path: Option<String>,
    listen_fd: Option<i32>,
    stream_fd: Option<i32>,
) -> nat {
    (if listen_path.is_some() {
        1nat
    } else {
        0nat
    }) + (if listen_fd.is_some() {
        1nat
    } else {
        0nat
    }) + (if stream_fd.is_some() {
        1nat
    } else {
        0nat
    })
}

/// Chooses the entry point: exactly one of the three must be given.
pub fn select_entry_point(
    listen_path: Option<String>,
    listen_fd: Option<i32>,
    stream_fd: Option<i32>,
) -> (entry: Result<EntryPoint, ConfigError>)
    ensures
        entry_points_given(listen_path, listen_fd, stream_fd) == 0 ==> entry matches Err(
            ConfigError::NoEntryPoint,
        ),
        entry_points_given(listen_path, listen_fd, stream_fd) > 1 ==> entry matches Err(
            ConfigError::ConflictingEntryPoints,
        ),
        entry_points_given(listen_path, listen_fd, stream_fd) == 1 ==> match entry {
            Ok(EntryPoint::ListenPath(path)) => listen_path == Some(path),
            Ok(EntryPoint::ListenFd(fd)) => listen_fd == Some(fd),
            Ok(EntryPoint::StreamFd(fd)) => stream_fd == Some(fd),
            Err(_) => false,
        },
{
    match (listen_path, listen_fd, stream_fd) {
        (None, None, None) => Err(ConfigError::NoEntryPoint),
        (Some(path), None, None) => Ok(EntryPoint::ListenPath(path)),
        (None, Some(fd), None) => Ok(EntryPoint::ListenFd(fd)),
        (None, None, Some(fd)) => Ok(EntryPoint::StreamFd(fd)),
        _ => Err(ConfigError::ConflictingEntryPoints),
    }
}

} // verus!
