//! The supervisor of the privileged helper: it owns the one child process,
//! puts the clients' requests on its standard input one at a time, and hands
//! each response back to the client that asked.
//!
//! The supervisor decides; its caller spawns the child, moves the bytes and
//! reports what came of it.

use crate::codec::{decode_len, encode_len, frame_of, le_value, Direction, FrameLimits};
use crate::error::ErrorKind;
use vstd::prelude::*;

verus! {

/// How many requests may wait for the supervisor. A client that finds the
/// queue full waits for room, and holds up nobody but itself.
pub const QUEUE_CAPACITY: usize = 100;

/// The executable of the privileged helper, where none is named.
pub const DEFAULT_HELPER: &'static str = "rosenpass-wireguard-broker-privileged";

/// The command that starts the privileged helper.
#[derive(Debug)]
pub struct HelperCommand {
    pub program: String,
    pub args: Vec<String>,
}

/// Splits a command line into the helper's executable and its arguments. An
/// empty command line stands for the default helper without arguments.
pub fn helper_command(command: Vec<String>) -> (helper: HelperCommand)
    ensures
        command@.len() == 0 ==> helper.program@ == DEFAULT_HELPER@ && helper.args@.len() == 0,
        command@.len() > 0 ==> helper.program == command@[0] && helper.args@ == command@.skip(1),
{
    let mut args = command;
    if args.len() == 0 {
        HelperCommand { program: DEFAULT_HELPER.to_owned(), args }
    } else {
        let program = args.remove(0);
        assert(args@ =~= command@.skip(1));
        HelperCommand { program, args }
    }
}

/// A request on its way to the helper, with the handle on which the client
/// waits for the answer.
#[derive(Debug)]
pub struct BrokerRequest<R> {
    pub reply_to: R,
    pub request: Vec<u8>,
}

/// The helper's answer.
#[derive(Debug)]
pub struct BrokerResponse {
    pub response: Vec<u8>,
}

/// Where the supervisor stands.
#[derive(Debug)]
pub enum Phase<R> {
    /// The child has not been spawned yet.
    Starting,
    /// No exchange is under way.
    Idle,
    /// A request is being written to the child's standard input.
    Sending { reply_to: R },
    /// Waiting for the header of the response.
    ReadingLen { reply_to: R },
    /// Waiting for a response payload of `expected` bytes.
    ReadingBody { reply_to: R, expected: usize },
    /// The response is being handed to the client.
    Replying,
    /// The run loop has ended: cleanly, or with an error.
    Stopped(Option<ErrorKind>),
}

/// What the caller reports to the supervisor.
#[derive(Debug)]
pub enum SupervisorEvent<R> {
    /// The child runs, and both of its pipes are held.
    Spawned,
    /// The child could not be started.
    SpawnFailed,
    /// The queue gave its next request.
    Request(BrokerRequest<R>),
    /// Every sender of the queue is gone.
    QueueClosed,
    /// The request was written; its buffer comes back.
    Sent(Vec<u8>),
    /// The eight bytes of a response header were read.
    Header([u8; 8]),
    /// The buffer handed out for the payload was filled.
    Body(Vec<u8>),
    /// The response was handed over, or its receiver was gone.
    Replied,
    /// The child exited, or one of its pipes closed or failed.
    HelperGone,
}

/// What the supervisor asks its caller to do next.
#[derive(Debug)]
pub enum SupervisorAction<R> {
    /// Take the next request from the queue and report it as `Request`.
    NextRequest,
    /// Write the header, then the request, to the child's standard input,
    /// and report `Sent` with the request buffer.
    Send { header: [u8; 8], request: Vec<u8> },
    /// Read exactly eight bytes from the child's standard output.
    ReadHeader,
    /// Fill the whole buffer from the child's standard output.
    ReadBody { buffer: Vec<u8> },
    /// Hand the response to the client that waits on `reply_to`; if it is
    /// gone, drop the response. Report `Replied` either way.
    Reply { reply_to: R, response: BrokerResponse },
    /// Leave the run loop: cleanly with `None`, else with the error.
    Stop { error: Option<ErrorKind> },
}

/// An event as the contracts see it.
pub enum SupervisorInput<R> {
    Spawned,
    SpawnFailed,
    Request { reply_to: R, request: Seq<u8> },
    QueueClosed,
    Sent,
    Header(Seq<u8>),
    Body(Seq<u8>),
    Replied,
    HelperGone,
}

/// An action as the contracts see it.
pub enum SupervisorOutput<R> {
    NextRequest,
    /// The bytes that go to the child, header first.
    Send { frame: Seq<u8> },
    ReadHeader,
    /// The buffer to fill: `len` zero bytes.
    ReadBody { len: nat },
    Reply { reply_to: R, response: Seq<u8> },
    Stop { error: Option<ErrorKind> },
}

impl<R> View for SupervisorEvent<R> {
    type V = SupervisorInput<R>;

    open spec fn view(&self) -> SupervisorInput<R> {
        match self {
            SupervisorEvent::Spawned => SupervisorInput::Spawned,
            SupervisorEvent::SpawnFailed => SupervisorInput::SpawnFailed,
            SupervisorEvent::Request(r) => SupervisorInput::Request {
                reply_to: r.reply_to,
                request: r.request@,
            },
            SupervisorEvent::QueueClosed => SupervisorInput::QueueClosed,
            SupervisorEvent::Sent(_) => SupervisorInput::Sent,
            SupervisorEvent::Header(h) => SupervisorInput::Header(h@),
            SupervisorEvent::Body(b) => SupervisorInput::Body(b@),
            SupervisorEvent::Replied => SupervisorInput::Replied,
            SupervisorEvent::HelperGone => SupervisorInput::HelperGone,
        }
    }
}

impl<R> View for SupervisorAction<R> {
    type V = SupervisorOutput<R>;

    open spec fn view(&self) -> SupervisorOutput<R> {
        match self {
            SupervisorAction::NextRequest => SupervisorOutput::NextRequest,
            SupervisorAction::Send { header, request } => SupervisorOutput::Send {
                frame: header@ + request@,
            },
            SupervisorAction::ReadHeader => SupervisorOutput::ReadHeader,
            SupervisorAction::ReadBody { buffer } => SupervisorOutput::ReadBody {
                len: buffer@.len(),
            },
            SupervisorAction::Reply { reply_to, response } => SupervisorOutput::Reply {
                reply_to: *reply_to,
                response: response.response@,
            },
            SupervisorAction::Stop { error } => SupervisorOutput::Stop { error: *error },
        }
    }
}

/// The end of the run loop with `error`.
pub open spec fn stopping<R>(error: Option<ErrorKind>) -> (Phase<R>, SupervisorOutput<R>) {
    (Phase::Stopped(error), SupervisorOutput::Stop { error })
}

/// The supervisor's rule: the phase and action that follow a phase and an
/// event, with response payloads bounded by `max`.
///
/// The loss of the helper and a response that is too long are fatal. An
/// event that does not answer the action last given ends the loop as a
/// framing error; an ended loop stays ended.
pub open spec fn supervisor_step<R>(phase: Phase<R>, max: nat, input: SupervisorInput<R>) -> (
    Phase<R>,
    SupervisorOutput<R>,
) {
    match (phase, input) {
        (Phase::Stopped(error), _) => (phase, SupervisorOutput::Stop { error }),
        (_, SupervisorInput::HelperGone) => stopping(Some(ErrorKind::HelperGone)),
        (Phase::Starting, SupervisorInput::Spawned) => (Phase::Idle, SupervisorOutput::NextRequest),
        (Phase::Starting, SupervisorInput::SpawnFailed) => stopping(Some(ErrorKind::HelperSpawn)),
        (Phase::Idle, SupervisorInput::Request { reply_to, request }) => (
            Phase::Sending { reply_to },
            SupervisorOutput::Send { frame: frame_of(request) },
        ),
        (Phase::Idle, SupervisorInput::QueueClosed) => stopping(None),
        (Phase::Sending { reply_to }, SupervisorInput::Sent) => (
            Phase::ReadingLen { reply_to },
            SupervisorOutput::ReadHeader,
        ),
        (Phase::ReadingLen { reply_to }, SupervisorInput::Header(h)) => if le_value(h) > max {
            stopping(Some(ErrorKind::OversizedResponse))
        } else {
            (
                Phase::ReadingBody { reply_to, expected: le_value(h) as usize },
                SupervisorOutput::ReadBody { len: le_value(h) },
            )
        },
        (Phase::ReadingBody { reply_to, expected }, SupervisorInput::Body(b)) => if b.len()
            == expected {
            (Phase::Replying, SupervisorOutput::Reply { reply_to, response: b })
        } else {
            stopping(Some(ErrorKind::FramingError))
        },
        (Phase::Replying, SupervisorInput::Replied) => (Phase::Idle, SupervisorOutput::NextRequest),
        _ => stopping(Some(ErrorKind::FramingError)),
    }
}

/// The supervisor of one helper process.
#[derive(Debug)]
pub struct Supervisor<R> {
    limits: FrameLimits,
    phase: Phase<R>,
    /// The buffer of the request under way, kept to take the response.
    buffer: Vec<u8>,
}

impl<R> Supervisor<R> {
    /// The phase of the supervisor.
    pub closed spec fn spec_phase(&self) -> Phase<R> {
        self.phase
    }

    /// The bounds that the supervisor was made with.
    pub closed spec fn spec_limits(&self) -> FrameLimits {
        self.limits
    }

    /// A supervisor whose child is yet to be spawned: the caller starts by
    /// spawning it, with piped standard input and output.
    pub fn new(limits: FrameLimits) -> (supervisor: Supervisor<R>)
        ensures
            supervisor.spec_phase() == Phase::<R>::Starting,
            supervisor.spec_limits() == limits,
    {
        Supervisor { limits, phase: Phase::Starting, buffer: Vec::new() }
    }

    pub fn limits(&self) -> (limits: FrameLimits)
        ensures
            limits == self.spec_limits(),
    {
        self.limits
    }

    /// Whether the run loop has ended.
    pub fn is_stopped(&self) -> (stopped: bool)
        ensures
            stopped == (self.spec_phase() is Stopped),
    {
        match &self.phase {
            Phase::Stopped(_) => true,
            _ => false,
        }
    }

    /// Whether an exchange with the helper is under way.
    pub fn is_busy(&self) -> (busy: bool)
        ensures
            busy == exchange_open(self.spec_phase()),
    {
        match &self.phase {
            Phase::Sending { .. } | Phase::ReadingLen { .. } | Phase::ReadingBody { .. } => true,
            _ => false,
        }
    }

    fn stop(&mut self, error: Option<ErrorKind>) -> (action: SupervisorAction<R>)
        ensures
            (final(self).spec_phase(), action@) == stopping::<R>(error),
            final(self).spec_limits() == old(self).spec_limits(),
    {
        self.phase = Phase::Stopped(error);
        SupervisorAction::Stop { error }
    }

    /// Takes the outcome of the action last given and says what to do next.
    pub fn step(&mut self, event: SupervisorEvent<R>) -> (action: SupervisorAction<R>)
        ensures
            (final(self).spec_phase(), action@) == supervisor_step(
                old(self).spec_phase(),
                old(self).spec_limits().bound(Direction::Response),
                event@,
            ),
            final(self).spec_limits() == old(self).spec_limits(),
            action matches SupervisorAction::ReadBody { buffer } ==> forall|i: int|
                0 <= i < buffer@.len() ==> buffer@[i] == 0,
    {
        let mut phase: Phase<R> = Phase::Stopped(None);
        core::mem::swap(&mut phase, &mut self.phase);
        match (phase, event) {
            (Phase::Stopped(error), _) => self.stop(error),
            (_, SupervisorEvent::HelperGone) => self.stop(Some(ErrorKind::HelperGone)),
            (Phase::Starting, SupervisorEvent::Spawned) => {
                self.phase = Phase::Idle;
                SupervisorAction::NextRequest
            },
            (Phase::Starting, SupervisorEvent::SpawnFailed) => self.stop(
                Some(ErrorKind::HelperSpawn),
            ),
            (Phase::Idle, SupervisorEvent::Request(BrokerRequest { reply_to, request })) => {
                let header = encode_len(request.len() as u64);
                self.phase = Phase::Sending { reply_to };
                SupervisorAction::Send { header, request }
            },
            (Phase::Idle, SupervisorEvent::QueueClosed) => self.stop(None),
            (Phase::Sending { reply_to }, SupervisorEvent::Sent(buffer)) => {
                self.buffer = buffer;
                self.phase = Phase::ReadingLen { reply_to };
                SupervisorAction::ReadHeader
            },
            (Phase::ReadingLen { reply_to }, SupervisorEvent::Header(header)) => {
                let declared: u64 = decode_len(&header);
                match self.limits.check_len(Direction::Response, declared) {
                    Err(_) => self.stop(Some(ErrorKind::OversizedResponse)),
                    Ok(len) => {
                        let mut buffer: Vec<u8> = Vec::new();
                        core::mem::swap(&mut buffer, &mut self.buffer);
                        buffer.clear();
                        buffer.resize(len, 0u8);
                        self.phase = Phase::ReadingBody { reply_to, expected: len };
                        SupervisorAction::ReadBody { buffer }
                    },
                }
            },
            (Phase::ReadingBody { reply_to, expected }, SupervisorEvent::Body(body)) => {
                if body.len() == expected {
                    self.phase = Phase::Replying;
                    SupervisorAction::Reply { reply_to, response: BrokerResponse { response: body } }
                } else {
                    self.stop(Some(ErrorKind::FramingError))
                }
            },
            (Phase::Replying, SupervisorEvent::Replied) => {
                self.phase = Phase::Idle;
                SupervisorAction::NextRequest
            },
            _ => self.stop(Some(ErrorKind::FramingError)),
        }
    }
}

/// Whether a request has been taken from the queue and not answered yet.
pub open spec fn exchange_open<R>(phase: Phase<R>) -> bool {
    phase is Sending || phase is ReadingLen || phase is ReadingBody
}

/// The actions of a supervisor that starts in `phase` and is given `inputs`
/// in turn.
pub open spec fn supervisor_run<R>(phase: Phase<R>, max: nat, inputs: Seq<SupervisorInput<R>>) -> Seq<
    SupervisorOutput<R>,
>
    decreases inputs.len(),
{
    if inputs.len() == 0 {
        Seq::empty()
    } else {
        let (next, output) = supervisor_step(phase, max, inputs[0]);
        seq![output] + supervisor_run(next, max, inputs.drop_first())
    }
}

/// The reply handles of the requests among a sequence of events, in order.
pub open spec fn requested<R>(inputs: Seq<SupervisorInput<R>>) -> Seq<R>
    decreases inputs.len(),
{
    if inputs.len() == 0 {
        Seq::empty()
    } else {
        let rest = requested(inputs.drop_first());
        match inputs[0] {
            SupervisorInput::Request { reply_to, .. } => seq![reply_to] + rest,
            _ => rest,
        }
    }
}

/// The reply handles that a sequence of actions answers, in order.
pub open spec fn answered<R>(outputs: Seq<SupervisorOutput<R>>) -> Seq<R>
    decreases outputs.len(),
{
    if outputs.len() == 0 {
        Seq::empty()
    } else {
        let rest = answered(outputs.drop_first());
        match outputs[0] {
            SupervisorOutput::Reply { reply_to, .. } => seq![reply_to] + rest,
            _ => rest,
        }
    }
}

/// The number of requests that a sequence of actions puts on the helper's
/// standard input.
pub open spec fn sent<R>(outputs: Seq<SupervisorOutput<R>>) -> nat
    decreases outputs.len(),
{
    if outputs.len() == 0 {
        0
    } else {
        let rest = sent(outputs.drop_first());
        match outputs[0] {
            SupervisorOutput::Send { .. } => 1 + rest,
            _ => rest,
        }
    }
}

/// The reply handle that a supervisor in `phase` still owes an answer.
pub open spec fn owed<R>(phase: Phase<R>) -> Seq<R> {
    match phase {
        Phase::Sending { reply_to } => seq![reply_to],
        Phase::ReadingLen { reply_to } => seq![reply_to],
        Phase::ReadingBody { reply_to, .. } => seq![reply_to],
        _ => Seq::empty(),
    }
}

proof fn lemma_actions_cons<R>(output: SupervisorOutput<R>, rest: Seq<SupervisorOutput<R>>)
    ensures
        answered(seq![output] + rest) == match output {
            SupervisorOutput::Reply { reply_to, .. } => seq![reply_to] + answered(rest),
            _ => answered(rest),
        },
        sent(seq![output] + rest) == match output {
            SupervisorOutput::Send { .. } => 1 + sent(rest),
            _ => sent(rest),
        },
{
    assert((seq![output] + rest).drop_first() =~= rest);
}

/// A supervisor whose loop has ended sends and answers nothing more.
pub proof fn lemma_stopped_supervisor_is_silent<R>(
    error: Option<ErrorKind>,
    max: nat,
    inputs: Seq<SupervisorInput<R>>,
)
    ensures
        answered(supervisor_run(Phase::Stopped(error), max, inputs)).len() == 0,
        sent(supervisor_run(Phase::Stopped(error), max, inputs)) == 0,
    decreases inputs.len(),
{
    if inputs.len() > 0 {
        let phase = Phase::<R>::Stopped(error);
        let (next, output) = supervisor_step(phase, max, inputs[0]);
        lemma_stopped_supervisor_is_silent::<R>(error, max, inputs.drop_first());
        lemma_actions_cons(output, supervisor_run(next, max, inputs.drop_first()));
    }
}

/// Responses go out in the order in which the requests came in: the handles
/// answered are, one for one and in order, the first of the handle owed
/// followed by those of the requests taken from the queue.
pub proof fn lemma_answers_follow_requests<R>(
    phase: Phase<R>,
    max: nat,
    inputs: Seq<SupervisorInput<R>>,
)
    ensures
        answered(supervisor_run(phase, max, inputs)).is_prefix_of(owed(phase) + requested(inputs)),
    decreases inputs.len(),
{
    let outputs = supervisor_run(phase, max, inputs);
    if inputs.len() > 0 {
        let (next, output) = supervisor_step(phase, max, inputs[0]);
        let tail = inputs.drop_first();
        let rest = supervisor_run(next, max, tail);
        lemma_actions_cons(output, rest);
        lemma_answers_follow_requests(next, max, tail);
        if let Phase::Stopped(error) = next {
            lemma_stopped_supervisor_is_silent::<R>(error, max, tail);
        }
        let all = owed(phase) + requested(inputs);
        let later = owed(next) + requested(tail);
        assert(answered(rest).is_prefix_of(later));
        match output {
            SupervisorOutput::Reply { reply_to, .. } => {
                assert(all =~= seq![reply_to] + later);
                assert(answered(outputs) =~= seq![reply_to] + answered(rest));
                assert forall|k: int| 0 <= k < answered(outputs).len() implies answered(outputs)[k]
                    == all[k] by {
                    if k > 0 {
                        assert(answered(rest)[k - 1] == later[k - 1]);
                    }
                }
            },
            _ => {
                if next is Stopped {
                    assert(answered(outputs).len() == 0);
                } else {
                    assert(all =~= later);
                }
            },
        }
    } else {
        assert(answered(outputs).len() == 0);
    }
}

/// The supervisor never has two requests with the helper: counting the
/// exchange that is open in `phase`, it sends at most one request more than
/// it answers.
pub proof fn lemma_one_exchange_at_a_time<R>(
    phase: Phase<R>,
    max: nat,
    inputs: Seq<SupervisorInput<R>>,
)
    ensures
        owed(phase).len() + sent(supervisor_run(phase, max, inputs)) <= answered(
            supervisor_run(phase, max, inputs),
        ).len() + 1,
    decreases inputs.len(),
{
    if inputs.len() > 0 {
        let (next, output) = supervisor_step(phase, max, inputs[0]);
        let tail = inputs.drop_first();
        lemma_actions_cons(output, supervisor_run(next, max, tail));
        lemma_one_exchange_at_a_time(next, max, tail);
        if let Phase::Stopped(error) = next {
            lemma_stopped_supervisor_is_silent::<R>(error, max, tail);
        }
    }
}

/// From its start on, the supervisor answers the clients in the order in
/// which their requests left the queue.
pub proof fn lemma_supervisor_keeps_order<R>(max: nat, inputs: Seq<SupervisorInput<R>>)
    ensures
        answered(supervisor_run(Phase::Starting, max, inputs)).is_prefix_of(requested(inputs)),
        sent(supervisor_run(Phase::Starting, max, inputs)) <= answered(
            supervisor_run(Phase::Starting, max, inputs),
        ).len() + 1,
{
    lemma_answers_follow_requests(Phase::<R>::Starting, max, inputs);
    lemma_one_exchange_at_a_time(Phase::<R>::Starting, max, inputs);
    assert(owed(Phase::<R>::Starting) + requested(inputs) =~= requested(inputs));
}

} // verus!
