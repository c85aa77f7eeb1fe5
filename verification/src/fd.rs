//! What the control plane decides about raw file descriptors and about the
//! results of the system calls made on them.

use crate::error::ErrorKind;
use vstd::prelude::*;

verus! {

/// An error number of the operating system, kept in the negated form in
/// which the kernel returns it: as sixteen bits, `0xf001..=0xffff`.
#[derive(Clone, Copy, Debug, PartialEq, Eq, Hash, Structural)]
pub struct Errno(u16);

impl Errno {
    /// The error number as the C library reports it, in `1..=4095`.
    pub closed spec fn code(&self) -> int {
        0x1_0000 - self.0 as int
    }

    #[verifier::type_invariant]
    closed spec fn inv(&self) -> bool {
        0xf001 <= self.0
    }

    /// The error with the number `raw`, for a number that the kernel can
    /// return: one in `1..=4095`.
    pub fn from_raw_os_error(raw: i32) -> (errno: Option<Errno>)
        ensures
            1 <= raw <= 4095 ==> (errno matches Some(e) && e.code() == raw),
            !(1 <= raw <= 4095) ==> errno.is_none(),
    {
        if 1 <= raw && raw <= 4095 {
            Some(Errno((0x1_0000 - raw) as u16))
        } else {
            None
        }
    }

    /// The error number as the C library reports it.
    pub fn raw_os_error(&self) -> (raw: i32)
        ensures
            raw == self.code(),
            1 <= raw <= 4095,
    {
        proof {
            use_type_invariant(self);
        }
        0x1_0000 - self.0 as i32
    }
}

/// The lowest number that a duplicate of a descriptor may get: the numbers
/// of the three standard streams stay free.
pub const MINFD: i32 = 3;

/// Holds a descriptor number that was handed in from outside against the
/// range that the operating system admits, `0..=os_max`.
pub fn validate_fd(fd: i32, os_max: i32) -> (checked: Result<i32, ErrorKind>)
    ensures
        0 <= fd <= os_max ==> checked == Ok::<i32, ErrorKind>(fd),
        !(0 <= fd <= os_max) ==> checked == Err::<i32, ErrorKind>(ErrorKind::InvalidFd),
{
    if 0 <= fd && fd <= os_max {
        Ok(fd)
    } else {
        Err(ErrorKind::InvalidFd)
    }
}

/// How a descriptor that was handed in is taken over.
#[derive(Clone, Copy, Debug, PartialEq, Eq, Structural)]
pub enum ClaimMode {
    /// The descriptor is duplicated, and the number that was handed in is
    /// made to name a null descriptor, so that a stale use of it is inert.
    Masked,
    /// The number that was handed in is kept.
    InPlace,
}

/// Whether `claimed` can be the number of the descriptor that came of taking
/// over `handed_in` in `mode`.
pub open spec fn spec_claim_fits(mode: ClaimMode, handed_in: i32, claimed: i32) -> bool {
    match mode {
        ClaimMode::Masked => claimed >= MINFD && claimed != handed_in,
        ClaimMode::InPlace => claimed == handed_in,
    }
}

/// Holds the number of a descriptor that was taken over against the mode in
/// which it was: a duplicate has a number of its own, clear of the standard
/// streams; a descriptor kept in place has the number that was handed in.
pub fn claim_fits(mode: ClaimMode, handed_in: i32, claimed: i32) -> (fits: bool)
    ensures
        fits == spec_claim_fits(mode, handed_in, claimed),
{
    match mode {
        ClaimMode::Masked => claimed >= MINFD && claimed != handed_in,
        ClaimMode::InPlace => claimed == handed_in,
    }
}

/// An error of a system call in the form in which the standard library
/// carries it: by the number that the operating system gave.
#[derive(Clone, Copy, Debug, PartialEq, Eq, Structural)]
pub struct StdioError {
    code: i32,
}

impl StdioError {
    /// The number that the operating system gave.
    pub closed spec fn code(&self) -> int {
        self.code as int
    }

    pub fn from_raw_os_error(code: i32) -> (error: StdioError)
        ensures
            error.code() == code,
    {
        StdioError { code }
    }

    pub fn raw_os_error(&self) -> (code: i32)
        ensures
            code == self.code(),
    {
        self.code
    }
}

/// Reads the return value of `read(2)` or `write(2)`: a count of bytes, or,
/// where it is negative, the failure that `errno` names.
pub fn syscall_result(ret: isize, errno: i32) -> (result: Result<usize, StdioError>)
    ensures
        ret >= 0 ==> result == Ok::<usize, StdioError>(ret as usize),
        ret < 0 ==> (result matches Err(e) && e.code() == errno),
{
    if ret < 0 {
        Err(StdioError::from_raw_os_error(errno))
    } else {
        Ok(ret as usize)
    }
}

/// Turns a low-level error, or a result that carries one, into the form of
/// the standard library.
pub trait IntoStdioErr {
    /// What comes out: an error, or a result, in the form of the standard
    /// library.
    type Target;

    fn into_stdio_err(self) -> Self::Target;
}

impl IntoStdioErr for Errno {
    type Target = StdioError;

    fn into_stdio_err(self) -> (target: StdioError)
        ensures
            target.code() == self.code(),
    {
        StdioError::from_raw_os_error(self.raw_os_error())
    }
}

impl<T> IntoStdioErr for Result<T, Errno> {
    type Target = Result<T, StdioError>;

    fn into_stdio_err(self) -> (target: Result<T, StdioError>)
        ensures
            match self {
                Ok(value) => target == Ok::<T, StdioError>(value),
                Err(errno) => target matches Err(e) && e.code() == errno.code(),
            },
    {
        match self {
            Ok(value) => Ok(value),
            Err(errno) => Err(errno.into_stdio_err()),
        }
    }
}

impl<T> IntoStdioErr for Result<T, StdioError> {
    type Target = Result<T, StdioError>;

    fn into_stdio_err(self) -> (target: Result<T, StdioError>)
        ensures
            target == self,
    {
        self
    }
}

} // verus!
