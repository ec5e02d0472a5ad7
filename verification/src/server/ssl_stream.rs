//! What the outcome of a TLS operation means for a connection.
use vstd::prelude::*;

verus! {

/// How the TLS library says that an operation has not succeeded.
#[derive(Clone, Copy, PartialEq, Eq, Structural, Debug)]
pub enum SslCode {
    /// The other side has ended the connection.
    ZeroReturn,
    /// The TLS library has found an error.
    Ssl,
    /// The system has found an error.
    Syscall,
    /// The connection must be readable first.
    WantRead,
    /// The connection must be writable first.
    WantWrite,
    /// Something else.
    Other(i32),
}

/// What becomes of an operation.
#[derive(Clone, Copy, PartialEq, Eq, Structural, Debug)]
pub enum SslOutcome {
    /// It is done, with so many bytes.
    Done(usize),
    /// It must be tried again later.
    WouldBlock,
    /// It has failed; the TLS library knows why.
    Failed,
    /// It has failed with a code that means nothing here.
    Unknown(i32),
}

/// The operations on a connection.
#[derive(Clone, Copy, PartialEq, Eq, Structural, Debug)]
pub enum SslOperation {
    Accept,
    Peek,
    Read,
    Write,
    Flush,
    Shutdown,
}

/// The numbers by which the TLS library tells its codes.
pub open spec fn code_of(raw: i32) -> SslCode {
    if raw == 6 {
        SslCode::ZeroReturn
    } else if raw == 1 {
        SslCode::Ssl
    } else if raw == 5 {
        SslCode::Syscall
    } else if raw == 2 {
        SslCode::WantRead
    } else if raw == 3 {
        SslCode::WantWrite
    } else {
        SslCode::Other(raw)
    }
}

/// What a number of the TLS library means.
pub fn ssl_code(raw: i32) -> (r: SslCode)
    ensures
        r == code_of(raw),
{
    match raw {
        6 => SslCode::ZeroReturn,
        1 => SslCode::Ssl,
        5 => SslCode::Syscall,
        2 => SslCode::WantRead,
        3 => SslCode::WantWrite,
        _ => SslCode::Other(raw),
    }
}

/// Whether the return value of an operation says that it succeeded.
pub open spec fn succeeded(operation: SslOperation, ret: i32) -> bool {
    match operation {
        SslOperation::Flush => ret == 1,
        SslOperation::Shutdown => ret >= 0,
        _ => ret > 0,
    }
}

/// The bytes that an operation that succeeded reports.
pub open spec fn reported(operation: SslOperation, bytes: usize) -> usize {
    match operation {
        SslOperation::Peek | SslOperation::Read | SslOperation::Write => bytes,
        _ => 0,
    }
}

/// What becomes of an operation, by its return value, the bytes it moved and the code asked for
/// afterwards. The end of the connection is no error, and a handshake is done by any code that is not
/// one.
pub fn outcome(operation: SslOperation, ret: i32, bytes: usize, code: SslCode) -> (r: SslOutcome)
    ensures
        r == if succeeded(operation, ret) {
            SslOutcome::Done(reported(operation, bytes))
        } else {
            match code {
                SslCode::ZeroReturn => SslOutcome::Done(0),
                SslCode::Ssl | SslCode::Syscall => SslOutcome::Failed,
                SslCode::WantRead | SslCode::WantWrite => SslOutcome::WouldBlock,
                SslCode::Other(raw) => if operation == SslOperation::Accept {
                    SslOutcome::Done(0)
                } else {
                    SslOutcome::Unknown(raw)
                },
            }
        },
{
    let done = match operation {
        SslOperation::Flush => ret == 1,
        SslOperation::Shutdown => ret >= 0,
        _ => ret > 0,
    };
    if done {
        let moved: usize = match operation {
            SslOperation::Peek => bytes,
            SslOperation::Read => bytes,
            SslOperation::Write => bytes,
            _ => 0,
        };
        return SslOutcome::Done(moved);
    }
    match code {
        SslCode::ZeroReturn => SslOutcome::Done(0),
        SslCode::Ssl => SslOutcome::Failed,
        SslCode::Syscall => SslOutcome::Failed,
        SslCode::WantRead => SslOutcome::WouldBlock,
        SslCode::WantWrite => SslOutcome::WouldBlock,
        SslCode::Other(raw) => match operation {
            SslOperation::Accept => SslOutcome::Done(0),
            _ => SslOutcome::Unknown(raw),
        },
    }
}

/// An operation that must wait is tried again, one that the other side has ended is over without an error, and
/// one that has failed fails; one that has succeeded tells the bytes that it moved, whatever the code.
pub proof fn outcome_follows_code(
    operation: SslOperation,
    ret: i32,
    bytes: usize,
    raw: i32,
    code: SslCode,
    r: SslOutcome,
)
    requires
        call_ensures(ssl_code, (raw,), code),
        call_ensures(outcome, (operation, ret, bytes, code), r),
    ensures
        ret > 1 && (operation == SslOperation::Read || operation == SslOperation::Write || operation
            == SslOperation::Peek) ==> r == SslOutcome::Done(bytes),
        ret < 0 && (raw == 2 || raw == 3) ==> r == SslOutcome::WouldBlock,
        ret < 0 && (raw == 1 || raw == 5) ==> r == SslOutcome::Failed,
        ret < 0 && raw == 6 ==> r == SslOutcome::Done(0),
        ret < 0 && !(raw == 1 || raw == 2 || raw == 3 || raw == 5 || raw == 6) && operation
            != SslOperation::Accept ==> r == SslOutcome::Unknown(raw),
        r is WouldBlock ==> raw == 2 || raw == 3,
        ret == 0 && operation == SslOperation::Shutdown ==> r == SslOutcome::Done(0),
        ret == 1 && operation == SslOperation::Flush ==> r == SslOutcome::Done(0),
        ret >= 1 && operation == SslOperation::Accept ==> r == SslOutcome::Done(0),
        ret == 1 && (operation == SslOperation::Read || operation == SslOperation::Write || operation
            == SslOperation::Peek) ==> r == SslOutcome::Done(bytes),
{
}

/// A handshake is done by every code that names neither an error nor a wait; nothing else is done by a code
/// that is not known.
pub proof fn unknown_code_ends_a_handshake(
    operation: SslOperation,
    ret: i32,
    bytes: usize,
    raw: i32,
    code: SslCode,
    r: SslOutcome,
)
    requires
        call_ensures(ssl_code, (raw,), code),
        call_ensures(outcome, (operation, ret, bytes, code), r),
        ret < 0,
    ensures
        operation == SslOperation::Accept ==> (r == SslOutcome::Done(0) <==> !(raw == 1 || raw == 2 || raw == 3
            || raw == 5)),
        operation != SslOperation::Accept ==> (r is Done <==> raw == 6),
        r matches SslOutcome::Unknown(told) ==> told == raw,
{
}

} // verus!
