//! Length-prefixed framing: an eight-byte little-endian length, then that
//! many payload bytes.

use crate::error::ErrorKind;
use vstd::prelude::*;
use vstd::slice::slice_subrange;
use vstd::slice::slice_to_vec;

verus! {

/// Number of bytes in a frame header.
pub const HEADER_LEN: usize = 8;

/// The number that a little-endian byte string denotes.
pub open spec fn le_value(bytes: Seq<u8>) -> nat
    decreases bytes.len(),
{
    if bytes.len() == 0 {
        0
    } else {
        bytes[0] as nat + 256 * le_value(bytes.drop_first())
    }
}

/// The `width` low-order bytes of `value`, least significant first.
pub open spec fn le_bytes(value: nat, width: nat) -> Seq<u8>
    decreases width,
{
    if width == 0 {
        Seq::empty()
    } else {
        seq![(value % 256) as u8] + le_bytes(value / 256, (width - 1) as nat)
    }
}

/// 256 to the power `width`.
pub open spec fn radix_pow(width: nat) -> nat
    decreases width,
{
    if width == 0 {
        1
    } else {
        256 * radix_pow((width - 1) as nat)
    }
}

/// A number written in `width` bytes takes `width` bytes.
pub proof fn lemma_le_bytes_len(value: nat, width: nat)
    ensures
        le_bytes(value, width).len() == width,
    decreases width,
{
    if width > 0 {
        lemma_le_bytes_len(value / 256, (width - 1) as nat);
    }
}

/// Decoding undoes encoding for every value that fits the width.
pub proof fn lemma_le_value_of_bytes(value: nat, width: nat)
    requires
        value < radix_pow(width),
    ensures
        le_value(le_bytes(value, width)) == value,
    decreases width,
{
    if width > 0 {
        let rest = le_bytes(value / 256, (width - 1) as nat);
        let all = le_bytes(value, width);
        assert(all.drop_first() =~= rest);
        assert(value / 256 < radix_pow((width - 1) as nat)) by (nonlinear_arith)
            requires
                value < 256 * radix_pow((width - 1) as nat),
        ;
        lemma_le_value_of_bytes(value / 256, (width - 1) as nat);
        lemma_le_bytes_len(value, width);
    }
}

/// A byte string denotes a number below 256 to the power of its length.
pub proof fn lemma_le_value_bound(bytes: Seq<u8>)
    ensures
        le_value(bytes) < radix_pow(bytes.len()),
    decreases bytes.len(),
{
    if bytes.len() > 0 {
        lemma_le_value_bound(bytes.drop_first());
    }
}

/// Encoding undoes decoding.
pub proof fn lemma_le_bytes_of_value(bytes: Seq<u8>)
    ensures
        le_bytes(le_value(bytes), bytes.len()) == bytes,
    decreases bytes.len(),
{
    if bytes.len() > 0 {
        let tail = bytes.drop_first();
        lemma_le_bytes_of_value(tail);
        let v = le_value(bytes);
        let low = bytes[0] as nat;
        let high = le_value(tail);
        assert(v % 256 == low && v / 256 == high) by (nonlinear_arith)
            requires
                v == low + 256 * high,
                low < 256,
        ;
        assert(le_bytes(v, bytes.len()) =~= bytes);
    } else {
        assert(le_bytes(le_value(bytes), bytes.len()) =~= bytes);
    }
}

/// Eight bytes hold the numbers below two to the power 64.
pub proof fn lemma_radix_pow_8()
    ensures
        radix_pow(8) == 0x1_0000_0000_0000_0000,
{
    reveal_with_fuel(radix_pow, 9);
}

/// The header that announces a payload of `len` bytes.
pub open spec fn header_of(len: nat) -> Seq<u8> {
    le_bytes(len, 8)
}

/// The frame that carries `payload`.
pub open spec fn frame_of(payload: Seq<u8>) -> Seq<u8> {
    header_of(payload.len()) + payload
}

/// Writes `len` as a frame header.
pub fn encode_len(len: u64) -> (header: [u8; 8])
    ensures
        header@ == header_of(len as nat),
{
    let mut header: [u8; 8] = [0u8; 8];
    let mut rest: u64 = len;
    let mut i: usize = 0;
    while i < 8
        invariant
            i <= 8,
            header@.len() == 8,
            header@.take(i as int) + le_bytes(rest as nat, (8 - i) as nat) == le_bytes(
                len as nat,
                8,
            ),
        decreases 8 - i,
    {
        let byte: u8 = (rest % 256) as u8;
        proof {
            let before = header@.take(i as int);
            let tail = le_bytes((rest / 256) as nat, (8 - i - 1) as nat);
            assert(le_bytes(rest as nat, (8 - i) as nat) == seq![byte] + tail);
            assert(header@.update(i as int, byte).take(i + 1) =~= before + seq![byte]);
            assert((before + seq![byte]) + tail =~= before + (seq![byte] + tail));
        }
        header[i] = byte;
        rest = rest / 256;
        i = i + 1;
    }
    proof {
        assert(header@.take(8) =~= header@);
        assert(header@ + le_bytes(rest as nat, 0) =~= header@);
    }
    header
}

/// Reads a frame header as the length it announces.
pub fn decode_len(header: &[u8; 8]) -> (len: u64)
    ensures
        len as nat == le_value(header@),
{
    proof {
        lemma_le_value_bound(header@);
        lemma_radix_pow_8();
    }
    let mut len: u64 = 0;
    let mut i: usize = 8;
    while i > 0
        invariant
            i <= 8,
            header@.len() == 8,
            len as nat == le_value(header@.skip(i as int)),
            le_value(header@) < 0x1_0000_0000_0000_0000,
        decreases i,
    {
        i = i - 1;
        proof {
            let cur = header@.skip(i as int);
            assert(cur.drop_first() =~= header@.skip(i + 1));
            lemma_le_value_suffix(header@, i as int);
        }
        len = len * 256 + header[i] as u64;
    }
    proof {
        assert(header@.skip(0) =~= header@);
    }
    len
}

/// A suffix of a byte string denotes no more than the whole string.
pub proof fn lemma_le_value_suffix(bytes: Seq<u8>, at: int)
    requires
        0 <= at <= bytes.len(),
    ensures
        le_value(bytes.skip(at)) <= le_value(bytes),
        at < bytes.len() ==> bytes[at] as nat + 256 * le_value(bytes.skip(at + 1)) <= le_value(
            bytes,
        ),
    decreases at,
{
    if at == 0 {
        assert(bytes.skip(0) =~= bytes);
        if bytes.len() > 0 {
            assert(bytes.skip(1) =~= bytes.drop_first());
        }
    } else {
        let tail = bytes.drop_first();
        assert(tail.skip(at - 1) =~= bytes.skip(at));
        lemma_le_value_suffix(tail, at - 1);
        if at < bytes.len() {
            assert(tail.skip(at) =~= bytes.skip(at + 1));
        }
    }
}

/// The direction in which a frame travels.
#[derive(Clone, Copy, Debug, PartialEq, Eq, Structural)]
pub enum Direction {
    /// Towards the privileged helper.
    Request,
    /// Back from the privileged helper.
    Response,
}

/// The largest payload that each direction admits.
#[derive(Clone, Copy, Debug, PartialEq, Eq, Structural)]
pub struct FrameLimits {
    pub request_max: usize,
    pub response_max: usize,
}

impl FrameLimits {
    /// The largest payload of a frame that travels in `direction`.
    pub open spec fn bound(&self, direction: Direction) -> nat {
        match direction {
            Direction::Request => self.request_max as nat,
            Direction::Response => self.response_max as nat,
        }
    }

    pub fn new(request_max: usize, response_max: usize) -> (limits: FrameLimits)
        ensures
            limits == (FrameLimits { request_max, response_max }),
    {
        FrameLimits { request_max, response_max }
    }

    /// The largest payload of a frame that travels in `direction`.
    pub fn max_len(&self, direction: Direction) -> (max: usize)
        ensures
            max as nat == self.bound(direction),
    {
        match direction {
            Direction::Request => self.request_max,
            Direction::Response => self.response_max,
        }
    }

    /// Holds a length that a header announced against the bound of its
    /// direction: the length as a buffer size where it is within the bound,
    /// the direction's error where it is not.
    pub fn check_len(&self, direction: Direction, declared: u64) -> (checked: Result<
        usize,
        FrameError,
    >)
        ensures
            declared as nat <= self.bound(direction) ==> checked == Ok::<usize, FrameError>(
                declared as usize,
            ) && declared as usize == declared,
            declared as nat > self.bound(direction) ==> checked == Err::<usize, FrameError>(
                oversized(direction, declared),
            ),
    {
        let max: usize = self.max_len(direction);
        if declared > max as u64 {
            Err(make_oversized(direction, declared))
        } else {
            Ok(declared as usize)
        }
    }
}

/// A header that announces more than its direction admits.
#[derive(Clone, Copy, Debug, PartialEq, Eq, Structural)]
pub enum FrameError {
    /// A request header announced this many bytes.
    OversizedRequest(u64),
    /// A response header announced this many bytes.
    OversizedResponse(u64),
}

impl FrameError {
    pub open spec fn spec_kind(&self) -> ErrorKind {
        match self {
            FrameError::OversizedRequest(_) => ErrorKind::OversizedRequest,
            FrameError::OversizedResponse(_) => ErrorKind::OversizedResponse,
        }
    }

    /// The kind of failure that this error is.
    pub fn kind(&self) -> (kind: ErrorKind)
        ensures
            kind == self.spec_kind(),
    {
        match self {
            FrameError::OversizedRequest(_) => ErrorKind::OversizedRequest,
            FrameError::OversizedResponse(_) => ErrorKind::OversizedResponse,
        }
    }

    pub open spec fn spec_declared(&self) -> u64 {
        match self {
            FrameError::OversizedRequest(declared) => *declared,
            FrameError::OversizedResponse(declared) => *declared,
        }
    }

    /// The length that the offending header announced.
    pub fn declared(&self) -> (declared: u64)
        ensures
            declared == self.spec_declared(),
    {
        match self {
            FrameError::OversizedRequest(declared) => *declared,
            FrameError::OversizedResponse(declared) => *declared,
        }
    }
}

/// The error for a header of `direction` that announces `declared` bytes.
pub open spec fn oversized(direction: Direction, declared: u64) -> FrameError {
    match direction {
        Direction::Request => FrameError::OversizedRequest(declared),
        Direction::Response => FrameError::OversizedResponse(declared),
    }
}

fn make_oversized(direction: Direction, declared: u64) -> (error: FrameError)
    ensures
        error == oversized(direction, declared),
{
    match direction {
        Direction::Request => FrameError::OversizedRequest(declared),
        Direction::Response => FrameError::OversizedResponse(declared),
    }
}

/// What the bytes at the start of a stream amount to.
pub enum Parse {
    /// No whole frame yet: `missing` more bytes finish the header, or, with
    /// the header there, the payload.
    Incomplete { missing: nat },
    /// The header announces more than `max` bytes.
    Oversized { declared: nat },
    /// A whole frame, which takes up the first `consumed` bytes.
    Complete { payload: Seq<u8>, consumed: nat },
}

/// Reads the start of `input` as a frame whose payload has at most `max`
/// bytes. Only the header decides whether the frame is oversized.
pub open spec fn parse_frame(input: Seq<u8>, max: nat) -> Parse {
    if input.len() < 8 {
        Parse::Incomplete { missing: (8 - input.len()) as nat }
    } else {
        let declared = le_value(input.take(8));
        if declared > max {
            Parse::Oversized { declared }
        } else if input.len() < 8 + declared {
            Parse::Incomplete { missing: (8 + declared - input.len()) as nat }
        } else {
            Parse::Complete {
                payload: input.subrange(8, 8 + declared as int),
                consumed: 8 + declared,
            }
        }
    }
}

/// What `decode_frame` found at the start of its input.
#[derive(Debug)]
pub enum Decoded {
    /// No whole frame yet; this many bytes finish the header, or, with the
    /// header there, the payload.
    Incomplete(u64),
    /// A whole frame, which took up the first `consumed` bytes of the input.
    Complete { payload: Vec<u8>, consumed: usize },
}

/// The first eight bytes of `input` as a header; none where `input` is
/// shorter.
pub fn read_header(input: &[u8]) -> (header: Option<[u8; 8]>)
    ensures
        input@.len() >= 8 ==> (header matches Some(h) && h@ == input@.take(8)),
        input@.len() < 8 ==> header.is_none(),
{
    if input.len() < 8 {
        return None;
    }
    let mut header: [u8; 8] = [0u8; 8];
    let mut i: usize = 0;
    while i < 8
        invariant
            i <= 8,
            input@.len() >= 8,
            header@.len() == 8,
            forall|k: int| 0 <= k < i ==> header@[k] == input@[k],
        decreases 8 - i,
    {
        header[i] = input[i];
        i = i + 1;
    }
    assert(header@ =~= input@.take(8));
    Some(header)
}

/// Encodes `payload` as one frame.
pub fn encode_frame(payload: &[u8]) -> (frame: Vec<u8>)
    ensures
        frame@ == frame_of(payload@),
{
    let header = encode_len(payload.len() as u64);
    let mut frame: Vec<u8> = Vec::new();
    let mut i: usize = 0;
    while i < 8
        invariant
            i <= 8,
            header@.len() == 8,
            frame@ == header@.take(i as int),
        decreases 8 - i,
    {
        frame.push(header[i]);
        assert(header@.take(i as int).push(header@[i as int]) =~= header@.take(i + 1));
        i = i + 1;
    }
    assert(header@.take(8) =~= header@);
    let ghost before = frame@;
    frame.extend_from_slice(payload);
    assert(frame@ =~= before + payload@);
    frame
}

/// Decodes the frame at the start of `input`, holding its length against the
/// bound that `limits` gives for `direction`.
///
/// A header that announces too much is an error, whatever follows it.
pub fn decode_frame(input: &[u8], limits: &FrameLimits, direction: Direction) -> (decoded: Result<
    Decoded,
    FrameError,
>)
    ensures
        match parse_frame(input@, limits.bound(direction)) {
            Parse::Oversized { declared } => decoded matches Err(e) && declared <= u64::MAX && e
                == oversized(direction, declared as u64),
            Parse::Incomplete { missing } => decoded matches Ok(Decoded::Incomplete(m))
                && m as nat == missing,
            Parse::Complete { payload, consumed } => decoded matches Ok(
                Decoded::Complete { payload: p, consumed: c },
            ) && p@ == payload && c as nat == consumed,
        },
{
    let available: usize = input.len();
    let header = match read_header(input) {
        None => {
            return Ok(Decoded::Incomplete((8 - available) as u64));
        },
        Some(header) => header,
    };
    let declared: u64 = decode_len(&header);
    let len: usize = match limits.check_len(direction, declared) {
        Err(e) => {
            return Err(e);
        },
        Ok(len) => len,
    };
    let have: usize = available - 8;
    if have < len {
        return Ok(Decoded::Incomplete((len - have) as u64));
    }
    let payload = slice_to_vec(slice_subrange(input, 8, 8 + len));
    Ok(Decoded::Complete { payload, consumed: 8 + len })
}

/// A frame decodes to its payload: for every payload within the bound,
/// the frame that carries it parses as that payload and is consumed whole,
/// whatever follows it in the stream.
pub proof fn lemma_frame_round_trip(payload: Seq<u8>, rest: Seq<u8>, max: nat)
    requires
        payload.len() <= max,
        max <= u64::MAX,
    ensures
        parse_frame(frame_of(payload) + rest, max) == (Parse::Complete {
            payload,
            consumed: 8 + payload.len(),
        }),
{
    let input = frame_of(payload) + rest;
    lemma_le_bytes_len(payload.len(), 8);
    lemma_radix_pow_8();
    lemma_le_value_of_bytes(payload.len(), 8);
    assert(input.take(8) =~= header_of(payload.len()));
    assert(input.subrange(8, 8 + payload.len() as int) =~= payload);
}

/// A header that announces more than the bound is refused on the header
/// alone: the bytes behind it are not looked at.
pub proof fn lemma_oversized_needs_no_body(header: Seq<u8>, body: Seq<u8>, max: nat)
    requires
        header.len() == 8,
        le_value(header) > max,
    ensures
        parse_frame(header + body, max) == (Parse::Oversized { declared: le_value(header) }),
        parse_frame(header, max) == parse_frame(header + body, max),
{
    assert((header + body).take(8) =~= header);
    assert(header.take(8) =~= header);
}

} // verus!
