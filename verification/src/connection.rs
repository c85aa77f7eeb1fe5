//! The automaton of one client connection on a non-blocking stream: a
//! request frame is gathered from whatever the reads bring, handed out,
//! and the response frame is written as far as the writes take it.
//!
//! The connection owns the buffers and decides; its caller reads and writes
//! the stream and reports what came of it.

use crate::codec::{
    decode_len, encode_len, frame_of, header_of, le_value, lemma_le_bytes_len,
    lemma_le_value_of_bytes, lemma_radix_pow_8, read_header, Direction, FrameLimits,
};
use crate::error::ErrorKind;
use crate::fd::Errno;
use crate::registry::{dispensed, next_after, unused_after, AppServer, Token};
use vstd::prelude::*;
use vstd::slice::slice_subrange;

verus! {

/// Where a connection stands in its cycle.
#[derive(Clone, Copy, Debug, PartialEq, Eq, Structural)]
pub enum ConnectionState {
    /// Gathering the eight bytes of a request header.
    ReadingLen,
    /// Gathering the request payload.
    ReadingBody,
    /// The request has been handed out; the response has not come yet.
    Dispatched,
    /// Writing the response header.
    WritingLen,
    /// Writing the response payload.
    WritingBody,
    /// To be removed by the manager, for this reason.
    Closing(ErrorKind),
}

/// A connection as the contracts see it.
pub struct ConnectionView {
    pub state: ConnectionState,
    /// The bytes of the request frame gathered so far, header first.
    pub inbound: Seq<u8>,
    /// The response frame that is being written, header first.
    pub outbound: Seq<u8>,
    /// How many bytes of `outbound` the stream has taken.
    pub written: nat,
}

/// A connection between two exchanges.
pub open spec fn fresh() -> ConnectionView {
    ConnectionView {
        state: ConnectionState::ReadingLen,
        inbound: Seq::empty(),
        outbound: Seq::empty(),
        written: 0,
    }
}

/// A connection that holds nothing, in `state`.
pub open spec fn idle(state: ConnectionState) -> ConnectionView {
    ConnectionView { state, inbound: Seq::empty(), outbound: Seq::empty(), written: 0 }
}

/// How a connection's buffers fit its state.
pub open spec fn shaped(v: ConnectionView, limits: FrameLimits) -> bool {
    match v.state {
        ConnectionState::ReadingLen => v.inbound.len() < 8 && v.outbound.len() == 0 && v.written
            == 0,
        ConnectionState::ReadingBody => {
            &&& v.inbound.len() >= 8
            &&& le_value(v.inbound.take(8)) <= limits.request_max
            &&& v.inbound.len() < 8 + le_value(v.inbound.take(8))
            &&& v.outbound.len() == 0
            &&& v.written == 0
        },
        ConnectionState::WritingLen => {
            &&& v.inbound.len() == 0
            &&& v.outbound.len() >= 8
            &&& v.outbound == frame_of(v.outbound.skip(8))
            &&& v.outbound.len() - 8 <= limits.response_max
            &&& v.written < 8
        },
        ConnectionState::WritingBody => {
            &&& v.inbound.len() == 0
            &&& v.outbound.len() >= 8
            &&& v.outbound == frame_of(v.outbound.skip(8))
            &&& v.outbound.len() - 8 <= limits.response_max
            &&& 8 <= v.written < v.outbound.len()
        },
        _ => v == idle(v.state),
    }
}

/// How many bytes a connection still wants from its stream before it can
/// go on: the rest of the header, or the rest of the payload.
pub open spec fn wanted(v: ConnectionView) -> nat {
    match v.state {
        ConnectionState::ReadingLen => (8 - v.inbound.len()) as nat,
        ConnectionState::ReadingBody => (8 + le_value(v.inbound.take(8)) - v.inbound.len()) as nat,
        _ => 0,
    }
}

/// The connection that has gathered `inbound`, and the request if that is
/// a whole frame. A header that announces too much closes the connection.
pub open spec fn settle(inbound: Seq<u8>, limits: FrameLimits) -> (ConnectionView, Option<Seq<u8>>) {
    if inbound.len() < 8 {
        (ConnectionView { inbound, ..fresh() }, None)
    } else if le_value(inbound.take(8)) > limits.request_max {
        (idle(ConnectionState::Closing(ErrorKind::OversizedRequest)), None)
    } else if inbound.len() == 8 + le_value(inbound.take(8)) {
        (idle(ConnectionState::Dispatched), Some(inbound.skip(8)))
    } else {
        (ConnectionView { state: ConnectionState::ReadingBody, inbound, ..fresh() }, None)
    }
}

/// One bite: the connection takes from the front of `data` as much as it
/// wants. Gives the connection after it, the number of bytes taken and the
/// request that they completed.
pub open spec fn bite(v: ConnectionView, limits: FrameLimits, data: Seq<u8>) -> (
    ConnectionView,
    nat,
    Option<Seq<u8>>,
) {
    let k = if wanted(v) <= data.len() {
        wanted(v)
    } else {
        data.len()
    };
    if k == 0 {
        (v, 0, None)
    } else {
        let (next, request) = settle(v.inbound + data.take(k as int), limits);
        (next, k, request)
    }
}

/// What a connection does with bytes that a read brought: a bite for the
/// header, then a bite for the payload. What is left of `data` after a whole
/// request, or after the connection closed, is not taken.
pub open spec fn receive_step(v: ConnectionView, limits: FrameLimits, data: Seq<u8>) -> (
    ConnectionView,
    nat,
    Option<Seq<u8>>,
) {
    let (first, k1, r1) = bite(v, limits, data);
    let (second, k2, r2) = bite(first, limits, data.skip(k1 as int));
    (second, k1 + k2, if r1.is_some() {
        r1
    } else {
        r2
    })
}

/// What a connection does with the response to the request it handed
/// out. A response that comes out of turn is dropped; one that is too long
/// closes the connection.
pub open spec fn respond_step(v: ConnectionView, limits: FrameLimits, response: Seq<u8>) -> ConnectionView {
    if v.state != ConnectionState::Dispatched {
        v
    } else if response.len() > limits.response_max {
        idle(ConnectionState::Closing(ErrorKind::OversizedResponse))
    } else {
        ConnectionView {
            state: ConnectionState::WritingLen,
            inbound: Seq::empty(),
            outbound: frame_of(response),
            written: 0,
        }
    }
}

/// The bytes that a connection offers to its next write: what is left of
/// the header, and after the header what is left of the payload.
pub open spec fn pending(v: ConnectionView) -> Seq<u8> {
    match v.state {
        ConnectionState::WritingLen => v.outbound.subrange(v.written as int, 8),
        ConnectionState::WritingBody => v.outbound.skip(v.written as int),
        _ => Seq::empty(),
    }
}

/// What a connection does when a write took `n` of the bytes it offered.
/// With the whole frame written it waits for the next request. A count
/// beyond what was offered closes it.
pub open spec fn wrote_step(v: ConnectionView, n: nat) -> ConnectionView {
    if v.state != ConnectionState::WritingLen && v.state != ConnectionState::WritingBody {
        v
    } else if n > pending(v).len() {
        idle(ConnectionState::Closing(ErrorKind::FramingError))
    } else if v.written + n == v.outbound.len() {
        fresh()
    } else {
        ConnectionView {
            state: if v.written + n < 8 {
                ConnectionState::WritingLen
            } else {
                ConnectionState::WritingBody
            },
            written: v.written + n,
            ..v
        }
    }
}

/// What a connection does when its peer has closed the stream.
pub open spec fn peer_closed_step(v: ConnectionView) -> ConnectionView {
    if v.state is Closing {
        v
    } else {
        idle(ConnectionState::Closing(ErrorKind::PeerClosed))
    }
}

/// What the caller reports to a connection.
#[derive(Debug)]
pub enum ConnectionEvent {
    /// A read brought these bytes.
    Received(Vec<u8>),
    /// A read brought the end of the stream.
    PeerClosed,
    /// A write took this many of the bytes offered.
    Written(usize),
    /// The response to the request that was handed out.
    Response(Vec<u8>),
    /// The stream was not ready.
    WouldBlock,
    /// The system call was interrupted.
    Interrupted,
    /// The system call failed with another error.
    Failed(Errno),
}

/// An event as the contracts see it.
pub enum ConnectionInput {
    Received(Seq<u8>),
    PeerClosed,
    Written(nat),
    Response(Seq<u8>),
    WouldBlock,
    Interrupted,
    Failed(Errno),
}

impl View for ConnectionEvent {
    type V = ConnectionInput;

    open spec fn view(&self) -> ConnectionInput {
        match self {
            ConnectionEvent::Received(data) => ConnectionInput::Received(data@),
            ConnectionEvent::PeerClosed => ConnectionInput::PeerClosed,
            ConnectionEvent::Written(n) => ConnectionInput::Written(*n as nat),
            ConnectionEvent::Response(r) => ConnectionInput::Response(r@),
            ConnectionEvent::WouldBlock => ConnectionInput::WouldBlock,
            ConnectionEvent::Interrupted => ConnectionInput::Interrupted,
            ConnectionEvent::Failed(e) => ConnectionInput::Failed(*e),
        }
    }
}

/// The connection's rule: the connection after an event, the number of
/// bytes it took from a read, and the request that they completed.
///
/// An unready stream and an interrupted call leave the connection as it is:
/// the caller comes back on readiness, or repeats the call. So does a call
/// that failed otherwise: that error is the caller's to hand on.
pub open spec fn poll_step(v: ConnectionView, limits: FrameLimits, input: ConnectionInput) -> (
    ConnectionView,
    nat,
    Option<Seq<u8>>,
) {
    match input {
        ConnectionInput::Received(data) => receive_step(v, limits, data),
        ConnectionInput::PeerClosed => (peer_closed_step(v), 0, None),
        ConnectionInput::Written(n) => (wrote_step(v, n), 0, None),
        ConnectionInput::Response(r) => (respond_step(v, limits, r), 0, None),
        ConnectionInput::WouldBlock | ConnectionInput::Interrupted | ConnectionInput::Failed(_) => (
            v,
            0,
            None,
        ),
    }
}

/// What came of the bytes that a read brought.
#[derive(Debug)]
pub struct Received {
    /// How many bytes, from the front, the connection took.
    pub consumed: usize,
    /// The request that they completed.
    pub request: Option<Vec<u8>>,
}

impl Received {
    /// The request as the contracts see it.
    pub open spec fn spec_request(&self) -> Option<Seq<u8>> {
        match self.request {
            Some(r) => Some(r@),
            None => None,
        }
    }
}

/// One client connection.
#[derive(Debug)]
pub struct MioConnection {
    token: Token,
    limits: FrameLimits,
    state: ConnectionState,
    header: Vec<u8>,
    body: Vec<u8>,
    expected: usize,
    /// How much of the part that is being written, header or payload, the
    /// stream has taken.
    written: usize,
}

impl View for MioConnection {
    type V = ConnectionView;

    closed spec fn view(&self) -> ConnectionView {
        match self.state {
            ConnectionState::ReadingLen | ConnectionState::ReadingBody => ConnectionView {
                state: self.state,
                inbound: self.header@ + self.body@,
                outbound: Seq::empty(),
                written: 0,
            },
            ConnectionState::WritingLen => ConnectionView {
                state: self.state,
                inbound: Seq::empty(),
                outbound: self.header@ + self.body@,
                written: self.written as nat,
            },
            ConnectionState::WritingBody => ConnectionView {
                state: self.state,
                inbound: Seq::empty(),
                outbound: self.header@ + self.body@,
                written: 8 + self.written as nat,
            },
            _ => idle(self.state),
        }
    }
}

impl MioConnection {
    /// The token under which the connection's stream is registered.
    pub closed spec fn spec_token(&self) -> Token {
        self.token
    }

    /// The bounds that the connection was made with.
    pub closed spec fn spec_limits(&self) -> FrameLimits {
        self.limits
    }

    /// The buffers fit the state.
    pub closed spec fn wf(&self) -> bool {
        &&& shaped(self@, self.limits)
        &&& match self.state {
            ConnectionState::ReadingLen => self.body@.len() == 0,
            ConnectionState::ReadingBody => self.header@.len() == 8 && self.expected as nat
                == le_value(self.header@),
            ConnectionState::WritingLen | ConnectionState::WritingBody => self.header@.len() == 8,
            _ => true,
        }
    }

    /// A well-formed connection's buffers fit its state.
    pub proof fn lemma_shaped(&self)
        requires
            self.wf(),
        ensures
            shaped(self@, self.spec_limits()),
    {
    }

    /// A connection for a stream that was just accepted, under a token of its
    /// own; none once the tokens have run out. The caller registers the stream
    /// for reading and writing under that token.
    pub fn new(server: &mut AppServer) -> (connection: Option<MioConnection>)
        requires
            old(server).wf(),
        ensures
            final(server).wf(),
            final(server).sources() == old(server).sources(),
            final(server).spec_limits() == old(server).spec_limits(),
            final(server).next_token() == next_after(old(server).next_token()),
            final(server).unused() == unused_after(old(server).unused(), old(server).next_token()),
            connection.is_some() == dispensed(old(server).next_token()).is_some(),
            connection matches Some(c) ==> {
                &&& c.wf()
                &&& c@ == fresh()
                &&& Some(c.spec_token()) == dispensed(old(server).next_token())
                &&& c.spec_limits() == old(server).spec_limits()
            },
    {
        let limits = server.limits();
        match server.dispense_token() {
            None => None,
            Some(token) => Some(
                MioConnection {
                    token,
                    limits,
                    state: ConnectionState::ReadingLen,
                    header: Vec::new(),
                    body: Vec::new(),
                    expected: 0,
                    written: 0,
                },
            ),
        }
    }

    pub fn mio_token(&self) -> (token: Token)
        ensures
            token == self.spec_token(),
    {
        self.token
    }

    pub fn limits(&self) -> (limits: FrameLimits)
        ensures
            limits == self.spec_limits(),
    {
        self.limits
    }

    pub fn state(&self) -> (state: ConnectionState)
        ensures
            state == self@.state,
    {
        self.state
    }

    /// Whether the manager is to remove the connection.
    pub fn should_close(&self) -> (closing: bool)
        ensures
            closing == (self@.state is Closing),
    {
        match self.state {
            ConnectionState::Closing(_) => true,
            _ => false,
        }
    }

    /// Why the connection is to be removed, if it is.
    pub fn close_reason(&self) -> (reason: Option<ErrorKind>)
        ensures
            reason == match self@.state {
                ConnectionState::Closing(r) => Some(r),
                _ => None,
            },
    {
        match self.state {
            ConnectionState::Closing(r) => Some(r),
            _ => None,
        }
    }

    /// How many bytes the next read should ask for; zero while the
    /// connection does not read.
    pub fn read_demand(&self) -> (demand: usize)
        requires
            self.wf(),
        ensures
            demand as nat == wanted(self@),
    {
        match self.state {
            ConnectionState::ReadingLen => 8 - self.header.len(),
            ConnectionState::ReadingBody => {
                assert((self.header@ + self.body@).take(8) =~= self.header@);
                self.expected - self.body.len()
            },
            _ => 0,
        }
    }

    fn reset(&mut self, state: ConnectionState)
        requires
            !(state is ReadingBody) && !(state is WritingLen) && !(state is WritingBody),
        ensures
            final(self).wf(),
            final(self)@ == idle(state),
            final(self).spec_token() == old(self).spec_token(),
            final(self).spec_limits() == old(self).spec_limits(),
    {
        self.header.clear();
        self.body.clear();
        self.written = 0;
        self.state = state;
        assert(self.header@ + self.body@ =~= Seq::<u8>::empty());
    }

    fn take_bite(&mut self, data: &[u8]) -> (received: Received)
        requires
            old(self).wf(),
        ensures
            final(self).wf(),
            (final(self)@, received.consumed as nat, received.spec_request()) == bite(
                old(self)@,
                old(self).spec_limits(),
                data@,
            ),
            final(self).spec_token() == old(self).spec_token(),
            final(self).spec_limits() == old(self).spec_limits(),
    {
        let want: usize = self.read_demand();
        let k: usize = if want <= data.len() {
            want
        } else {
            data.len()
        };
        if k == 0 {
            return Received { consumed: 0, request: None };
        }
        let chunk = slice_subrange(data, 0, k);
        let ghost before = self@.inbound;
        let ghost inbound = before + data@.take(k as int);
        match self.state {
            ConnectionState::ReadingLen => {
                self.header.extend_from_slice(chunk);
                assert(self.header@ =~= inbound);
                if let Some(header) = read_header(self.header.as_slice()) {
                    assert(header@ =~= inbound.take(8));
                    let declared: u64 = decode_len(&header);
                    match self.limits.check_len(Direction::Request, declared) {
                        Err(_) => {
                            self.reset(ConnectionState::Closing(ErrorKind::OversizedRequest));
                            Received { consumed: k, request: None }
                        },
                        Ok(len) => {
                            if len == 0 {
                                self.reset(ConnectionState::Dispatched);
                                let request: Vec<u8> = Vec::new();
                                assert(request@ =~= inbound.skip(8));
                                Received { consumed: k, request: Some(request) }
                            } else {
                                self.expected = len;
                                self.state = ConnectionState::ReadingBody;
                                assert(self.header@ + self.body@ =~= inbound);
                                assert(inbound.take(8) =~= self.header@);
                                Received { consumed: k, request: None }
                            }
                        },
                    }
                } else {
                    assert(self.header@ + self.body@ =~= inbound);
                    Received { consumed: k, request: None }
                }
            },
            ConnectionState::ReadingBody => {
                assert(before.take(8) =~= self.header@);
                self.body.extend_from_slice(chunk);
                assert(self.header@ + self.body@ =~= inbound);
                assert(inbound.take(8) =~= self.header@);
                if self.body.len() == self.expected {
                    let mut request: Vec<u8> = Vec::new();
                    core::mem::swap(&mut request, &mut self.body);
                    assert(request@ =~= inbound.skip(8));
                    self.reset(ConnectionState::Dispatched);
                    Received { consumed: k, request: Some(request) }
                } else {
                    Received { consumed: k, request: None }
                }
            },
            _ => Received { consumed: 0, request: None },
        }
    }

    /// Takes from the front of `data`, which a read brought, what the request
    /// frame under way still wants, and hands out the request once it is
    /// whole.
    pub fn receive(&mut self, data: &[u8]) -> (received: Received)
        requires
            old(self).wf(),
        ensures
            final(self).wf(),
            (final(self)@, received.consumed as nat, received.spec_request()) == receive_step(
                old(self)@,
                old(self).spec_limits(),
                data@,
            ),
            received.consumed <= data@.len(),
            final(self).spec_token() == old(self).spec_token(),
            final(self).spec_limits() == old(self).spec_limits(),
    {
        let first = self.take_bite(data);
        let rest = slice_subrange(data, first.consumed, data.len());
        let second = self.take_bite(rest);
        let request = match first.request {
            Some(r) => Some(r),
            None => second.request,
        };
        Received { consumed: first.consumed + second.consumed, request }
    }

    /// Takes the response to the request that was handed out, to be written
    /// behind a header of its own.
    pub fn respond(&mut self, response: Vec<u8>)
        requires
            old(self).wf(),
        ensures
            final(self).wf(),
            final(self)@ == respond_step(old(self)@, old(self).spec_limits(), response@),
            final(self).spec_token() == old(self).spec_token(),
            final(self).spec_limits() == old(self).spec_limits(),
    {
        match self.state {
            ConnectionState::Dispatched => {
                if response.len() > self.limits.response_max {
                    self.reset(ConnectionState::Closing(ErrorKind::OversizedResponse));
                } else {
                    let header = encode_len(response.len() as u64);
                    self.header.clear();
                    self.header.extend_from_slice(header.as_slice());
                    self.body = response;
                    self.written = 0;
                    self.state = ConnectionState::WritingLen;
                    proof {
                        lemma_le_bytes_len(response@.len(), 8);
                        assert(self.header@ =~= header@);
                        assert((self.header@ + self.body@).skip(8) =~= response@);
                    }
                }
            },
            _ => {},
        }
    }

    /// The bytes to offer to the next write; none while the connection does
    /// not write.
    pub fn pending_output(&self) -> (bytes: &[u8])
        requires
            self.wf(),
        ensures
            bytes@ == pending(self@),
    {
        match self.state {
            ConnectionState::WritingLen => {
                let bytes = slice_subrange(self.header.as_slice(), self.written, 8);
                assert(bytes@ =~= pending(self@));
                bytes
            },
            ConnectionState::WritingBody => {
                let bytes = slice_subrange(self.body.as_slice(), self.written, self.body.len());
                assert(bytes@ =~= pending(self@));
                bytes
            },
            _ => {
                let bytes = slice_subrange(self.header.as_slice(), 0, 0);
                assert(bytes@ =~= pending(self@));
                bytes
            },
        }
    }

    /// Records that a write took `n` of the bytes offered.
    pub fn wrote(&mut self, n: usize)
        requires
            old(self).wf(),
        ensures
            final(self).wf(),
            final(self)@ == wrote_step(old(self)@, n as nat),
            final(self).spec_token() == old(self).spec_token(),
            final(self).spec_limits() == old(self).spec_limits(),
    {
        match self.state {
            ConnectionState::WritingLen => {
                if n > 8 - self.written {
                    self.reset(ConnectionState::Closing(ErrorKind::FramingError));
                } else if self.written + n < 8 {
                    self.written = self.written + n;
                } else if self.body.len() == 0 {
                    self.reset(ConnectionState::ReadingLen);
                } else {
                    self.written = 0;
                    self.state = ConnectionState::WritingBody;
                }
            },
            ConnectionState::WritingBody => {
                if n > self.body.len() - self.written {
                    self.reset(ConnectionState::Closing(ErrorKind::FramingError));
                } else if self.written + n < self.body.len() {
                    self.written = self.written + n;
                } else {
                    self.reset(ConnectionState::ReadingLen);
                }
            },
            _ => {},
        }
    }

    /// Records that the peer has closed the stream.
    pub fn peer_closed(&mut self)
        requires
            old(self).wf(),
        ensures
            final(self).wf(),
            final(self)@ == peer_closed_step(old(self)@),
            final(self).spec_token() == old(self).spec_token(),
            final(self).spec_limits() == old(self).spec_limits(),
    {
        match self.state {
            ConnectionState::Closing(_) => {},
            _ => {
                self.reset(ConnectionState::Closing(ErrorKind::PeerClosed));
            },
        }
    }

    /// Runs the automaton once, on what the caller reports. The error of a
    /// failed system call is handed back.
    pub fn poll(&mut self, event: ConnectionEvent) -> (polled: Result<Received, Errno>)
        requires
            old(self).wf(),
        ensures
            final(self).wf(),
            final(self)@ == poll_step(old(self)@, old(self).spec_limits(), event@).0,
            match event@ {
                ConnectionInput::Failed(e) => polled == Err::<Received, Errno>(e),
                _ => polled matches Ok(received) && received.consumed as nat == poll_step(
                    old(self)@,
                    old(self).spec_limits(),
                    event@,
                ).1 && received.spec_request() == poll_step(
                    old(self)@,
                    old(self).spec_limits(),
                    event@,
                ).2,
            },
            final(self).spec_token() == old(self).spec_token(),
            final(self).spec_limits() == old(self).spec_limits(),
    {
        match event {
            ConnectionEvent::Received(data) => Ok(self.receive(data.as_slice())),
            ConnectionEvent::PeerClosed => {
                self.peer_closed();
                Ok(Received { consumed: 0, request: None })
            },
            ConnectionEvent::Written(n) => {
                self.wrote(n);
                Ok(Received { consumed: 0, request: None })
            },
            ConnectionEvent::Response(response) => {
                self.respond(response);
                Ok(Received { consumed: 0, request: None })
            },
            ConnectionEvent::WouldBlock | ConnectionEvent::Interrupted => Ok(
                Received { consumed: 0, request: None },
            ),
            ConnectionEvent::Failed(e) => Err(e),
        }
    }
}

/// The requests that a connection hands out when it starts as `v` and is
/// given `inputs` in turn.
pub open spec fn requests_out(v: ConnectionView, limits: FrameLimits, inputs: Seq<ConnectionInput>) -> Seq<
    Seq<u8>,
>
    decreases inputs.len(),
{
    if inputs.len() == 0 {
        Seq::empty()
    } else {
        let (next, _, request) = poll_step(v, limits, inputs[0]);
        let rest = requests_out(next, limits, inputs.drop_first());
        match request {
            Some(r) => seq![r] + rest,
            None => rest,
        }
    }
}

/// The connection that started as `v` and was given `inputs` in turn.
pub open spec fn connection_after(
    v: ConnectionView,
    limits: FrameLimits,
    inputs: Seq<ConnectionInput>,
) -> ConnectionView
    decreases inputs.len(),
{
    if inputs.len() == 0 {
        v
    } else {
        connection_after(poll_step(v, limits, inputs[0]).0, limits, inputs.drop_first())
    }
}

/// The number of responses among a sequence of events.
pub open spec fn responses_in(inputs: Seq<ConnectionInput>) -> nat
    decreases inputs.len(),
{
    if inputs.len() == 0 {
        0
    } else {
        let rest = responses_in(inputs.drop_first());
        if inputs[0] is Response {
            1 + rest
        } else {
            rest
        }
    }
}

/// Whether a connection in this state can hand out a request before it is
/// given a response.
pub open spec fn may_dispatch(state: ConnectionState) -> bool {
    !(state is Dispatched) && !(state is Closing)
}

/// A connection that is closing stays as it is, whatever comes: the mark
/// that asks for its removal is never taken back.
pub proof fn lemma_closing_is_final(v: ConnectionView, limits: FrameLimits, input: ConnectionInput)
    requires
        v.state is Closing,
    ensures
        poll_step(v, limits, input) == (v, 0nat, None::<Seq<u8>>),
{
}

/// A connection that is closing is still closing, for the same reason,
/// after any sequence of events, and hands out nothing.
pub proof fn lemma_closing_stays(v: ConnectionView, limits: FrameLimits, inputs: Seq<ConnectionInput>)
    requires
        v.state is Closing,
    ensures
        connection_after(v, limits, inputs) == v,
        requests_out(v, limits, inputs).len() == 0,
    decreases inputs.len(),
{
    if inputs.len() > 0 {
        lemma_closing_is_final(v, limits, inputs[0]);
        lemma_closing_stays(v, limits, inputs.drop_first());
    }
}

/// Ordering on one connection: each request but the first is handed out
/// only after the response to the one before it has come, so that the k-th
/// response answers the k-th request.
pub proof fn lemma_requests_wait_for_responses(
    v: ConnectionView,
    limits: FrameLimits,
    inputs: Seq<ConnectionInput>,
)
    ensures
        requests_out(v, limits, inputs).len() <= responses_in(inputs) + if may_dispatch(v.state) {
            1nat
        } else {
            0nat
        },
    decreases inputs.len(),
{
    if inputs.len() > 0 {
        let (next, _, request) = poll_step(v, limits, inputs[0]);
        lemma_requests_wait_for_responses(next, limits, inputs.drop_first());
    }
}

/// A frame goes through a connection whole: a connection between two
/// exchanges that is given a frame within the bound takes exactly the frame,
/// hands out its payload, and leaves what follows the frame untouched.
pub proof fn lemma_connection_round_trip(payload: Seq<u8>, rest: Seq<u8>, limits: FrameLimits)
    requires
        payload.len() <= limits.request_max,
    ensures
        receive_step(fresh(), limits, frame_of(payload) + rest) == (
            idle(ConnectionState::Dispatched),
            8 + payload.len(),
            Some(payload),
        ),
{
    let data = frame_of(payload) + rest;
    let header = header_of(payload.len());
    lemma_le_bytes_len(payload.len(), 8);
    lemma_radix_pow_8();
    lemma_le_value_of_bytes(payload.len(), 8);
    assert(data.take(8) =~= header);
    assert(Seq::<u8>::empty() + data.take(8) =~= header);
    assert(header.take(8) =~= header);
    let (first, k1, r1) = bite(fresh(), limits, data);
    assert(k1 == 8);
    if payload.len() == 0 {
        assert(header.skip(8) =~= payload);
        assert(first == idle(ConnectionState::Dispatched));
    } else {
        assert(first.inbound == header);
        assert(first.state == ConnectionState::ReadingBody);
        let later = data.skip(8);
        assert(later.take(payload.len() as int) =~= payload);
        let whole = header + later.take(payload.len() as int);
        assert(whole =~= frame_of(payload));
        assert(whole.take(8) =~= header);
        assert(whole.skip(8) =~= payload);
    }
}

/// An oversized header closes the connection on its eighth byte: nothing
/// behind the header is taken, and no request is handed out.
pub proof fn lemma_oversized_closes(header: Seq<u8>, rest: Seq<u8>, limits: FrameLimits)
    requires
        header.len() == 8,
        le_value(header) > limits.request_max,
    ensures
        receive_step(fresh(), limits, header + rest) == (
            idle(ConnectionState::Closing(ErrorKind::OversizedRequest)),
            8nat,
            None::<Seq<u8>>,
        ),
{
    let data = header + rest;
    assert(data.take(8) =~= header);
    assert(Seq::<u8>::empty() + data.take(8) =~= header);
    assert(header.take(8) =~= header);
}

/// A connection that reads holds nothing to write.
proof fn lemma_reading_shape(v: ConnectionView, limits: FrameLimits)
    requires
        shaped(v, limits),
        v.state is ReadingLen || v.state is ReadingBody,
    ensures
        v == (ConnectionView { state: v.state, inbound: v.inbound, ..fresh() }),
{
    assert(v.outbound =~= Seq::<u8>::empty());
}

/// Fewer bytes than are wanted are all taken, and the connection goes on
/// reading what it was reading.
proof fn lemma_bite_short(v: ConnectionView, limits: FrameLimits, data: Seq<u8>)
    requires
        shaped(v, limits),
        v.state is ReadingLen || v.state is ReadingBody,
        0 < data.len() < wanted(v),
    ensures
        bite(v, limits, data) == (
            ConnectionView { inbound: v.inbound + data, ..v },
            data.len(),
            None::<Seq<u8>>,
        ),
        shaped(bite(v, limits, data).0, limits),
        wanted(bite(v, limits, data).0) == wanted(v) - data.len(),
{
    lemma_reading_shape(v, limits);
    assert(data.take(data.len() as int) =~= data);
    if v.state is ReadingBody {
        assert((v.inbound + data).take(8) =~= v.inbound.take(8));
    }
}

/// Nothing is taken from no bytes.
proof fn lemma_bite_nothing(v: ConnectionView, limits: FrameLimits, data: Seq<u8>)
    requires
        data.len() == 0 || wanted(v) == 0,
    ensures
        bite(v, limits, data) == (v, 0nat, None::<Seq<u8>>),
{
}

/// Bytes short of what is wanted, and then more bytes, are taken as both
/// would be at once.
proof fn lemma_bite_after_short(v: ConnectionView, limits: FrameLimits, a: Seq<u8>, b: Seq<u8>)
    requires
        shaped(v, limits),
        v.state is ReadingLen || v.state is ReadingBody,
        0 < a.len() < wanted(v),
    ensures
        bite(v, limits, a + b) == ({
            let (after, k, request) = bite(bite(v, limits, a).0, limits, b);
            (after, a.len() + k, request)
        }),
        (a + b).skip(bite(v, limits, a + b).1 as int) == b.skip(
            bite(bite(v, limits, a).0, limits, b).1 as int,
        ),
{
    lemma_bite_short(v, limits, a);
    let ab = a + b;
    let between = bite(v, limits, a).0;
    let kb = bite(between, limits, b).1;
    let kab = bite(v, limits, ab).1;
    if b.len() == 0 {
        assert(ab =~= a);
        assert(ab.skip(kab as int) =~= b.skip(kb as int));
    } else {
        assert(kab == a.len() + kb);
        assert(ab.take(kab as int) =~= a + b.take(kb as int));
        assert(v.inbound + ab.take(kab as int) =~= between.inbound + b.take(kb as int));
        assert(ab.skip(kab as int) =~= b.skip(kb as int));
    }
}

/// After a bite at the payload a connection takes nothing more from the
/// same bytes: they are used up, or the request is whole.
proof fn lemma_body_bite_settles(v: ConnectionView, limits: FrameLimits, data: Seq<u8>)
    requires
        shaped(v, limits),
        v.state is ReadingBody,
    ensures
        bite(bite(v, limits, data).0, limits, data.skip(bite(v, limits, data).1 as int)) == (
            bite(v, limits, data).0,
            0nat,
            None::<Seq<u8>>,
        ),
        data.len() >= wanted(v) ==> bite(v, limits, data).2.is_some(),
{
    let want = wanted(v);
    if data.len() == 0 {
    } else if data.len() < want {
        lemma_bite_short(v, limits, data);
    } else {
        let whole = v.inbound + data.take(want as int);
        assert(whole.take(8) =~= v.inbound.take(8));
    }
}

/// How the stream cuts the bytes does not matter: bytes that come in two
/// reads leave the connection as the same bytes in one read would, as long
/// as the first read is taken whole and completes no request.
pub proof fn lemma_chunks_do_not_matter(v: ConnectionView, limits: FrameLimits, a: Seq<u8>, b: Seq<u8>)
    requires
        shaped(v, limits),
        receive_step(v, limits, a).1 == a.len(),
        receive_step(v, limits, a).2.is_none(),
    ensures
        receive_step(v, limits, a + b) == ({
            let (between, k1, _) = receive_step(v, limits, a);
            let (after, k2, request) = receive_step(between, limits, b);
            (after, k1 + k2, request)
        }),
{
    let ab = a + b;
    if a.len() == 0 {
        assert(ab =~= b);
    } else if v.state is ReadingBody {
        lemma_body_bite_settles(v, limits, a);
        lemma_chunks_in_body(v, limits, a, b);
    } else if v.state is ReadingLen {
        let need = wanted(v);
        if a.len() < need {
            lemma_bite_short(v, limits, a);
            lemma_bite_after_short(v, limits, a, b);
            assert(a.skip(a.len() as int) =~= Seq::<u8>::empty());
        } else {
            let first = bite(v, limits, a).0;
            let tail = a.skip(need as int);
            assert(ab.take(need as int) =~= a.take(need as int));
            assert(ab.skip(need as int) =~= tail + b);
            assert(bite(v, limits, ab) == bite(v, limits, a));
            assert((v.inbound + a.take(need as int)).take(8) =~= v.inbound + a.take(need as int));
            if first.state is ReadingBody {
                lemma_body_bite_settles(first, limits, tail);
                if tail.len() == 0 {
                    assert(tail + b =~= b);
                    lemma_body_bite_settles(first, limits, b);
                } else {
                    lemma_chunks_in_body(first, limits, tail, b);
                    lemma_bite_short(first, limits, tail);
                    let between = bite(first, limits, tail).0;
                    assert(receive_step(v, limits, a).0 == between);
                    lemma_bite_after_short(first, limits, tail, b);
                    lemma_body_bite_settles(between, limits, b);
                }
            } else {
                lemma_bite_nothing(first, limits, tail);
                lemma_bite_nothing(first, limits, tail + b);
                lemma_bite_nothing(first, limits, b);
                assert(b.skip(0) =~= b);
            }
        }
    } else {
    }
}

/// The payload's part of the above.
proof fn lemma_chunks_in_body(v: ConnectionView, limits: FrameLimits, a: Seq<u8>, b: Seq<u8>)
    requires
        shaped(v, limits),
        v.state is ReadingBody,
        0 < a.len() < wanted(v),
    ensures
        receive_step(v, limits, a) == (
            ConnectionView { inbound: v.inbound + a, ..v },
            a.len(),
            None::<Seq<u8>>,
        ),
        receive_step(v, limits, a + b) == ({
            let (between, k1, _) = receive_step(v, limits, a);
            let (after, k2, request) = receive_step(between, limits, b);
            (after, k1 + k2, request)
        }),
{
    lemma_bite_short(v, limits, a);
    let between = bite(v, limits, a).0;
    assert(a.skip(a.len() as int) =~= Seq::<u8>::empty());
    lemma_bite_nothing(between, limits, a.skip(a.len() as int));
    lemma_bite_after_short(v, limits, a, b);
    lemma_body_bite_settles(between, limits, b);
}

} // verus!
