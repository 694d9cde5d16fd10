//! What an NBD server does with each request: which block-device operation
//! to run, and which bytes to send back once it has run.

use vstd::prelude::*;
use crate::nbd::{
    field, lemma_parse_request_meaning, lemma_reply_layout, parse_request, Command, NbdError,
    Reply, Request, REPLY_MAGIC, REQUEST_MAGIC, SIZE_OF_REPLY, SIZE_OF_REQUEST,
};
use crate::wire::{be_value, i32_bits};

verus! {

/// The block-device operation that serves a request.
#[derive(Debug, Clone, Copy, PartialEq, Eq)]
pub enum Operation {
    /// Read `len` bytes at `offset`; they follow the reply header.
    Read { offset: u64, len: usize },
    /// Receive `len` more bytes from the client and write them at `offset`.
    Write { offset: u64, len: usize },
    /// Flush the device's write buffers.
    Flush,
    /// Mark `len` bytes at `offset` as unused.
    Trim { offset: u64, len: usize },
    /// A command that this server does not handle (disconnect, write zeroes).
    Unsupported,
}

/// The operation that serves `request`.
pub open spec fn operation_of(request: Request) -> Operation {
    match request.command {
        Command::Read => Operation::Read { offset: request.from, len: request.len },
        Command::Write => Operation::Write { offset: request.from, len: request.len },
        Command::Flush => Operation::Flush,
        Command::Trim => Operation::Trim { offset: request.from, len: request.len },
        Command::Disc => Operation::Unsupported,
        Command::WriteZeroes => Operation::Unsupported,
    }
}

/// Chooses the operation that serves `request`.
pub fn operation_for(request: &Request) -> (op: Operation)
    ensures
        op == operation_of(*request),
        request.command == Command::Read ==> op == (Operation::Read {
            offset: request.from,
            len: request.len,
        }),
        request.command == Command::Write ==> op == (Operation::Write {
            offset: request.from,
            len: request.len,
        }),
        request.command == Command::Trim ==> op == (Operation::Trim {
            offset: request.from,
            len: request.len,
        }),
        request.command == Command::Flush ==> op == Operation::Flush,
        request.command == Command::Disc || request.command == Command::WriteZeroes ==> (op
            == Operation::Unsupported),
{
    match request.command {
        Command::Read => Operation::Read { offset: request.from, len: request.len },
        Command::Write => Operation::Write { offset: request.from, len: request.len },
        Command::Flush => Operation::Flush,
        Command::Trim => Operation::Trim { offset: request.from, len: request.len },
        Command::Disc => Operation::Unsupported,
        Command::WriteZeroes => Operation::Unsupported,
    }
}

/// Reads `nix::errno::Errno::EIO` ("I/O error") as its number. nix defines
/// it as the host's `libc::EIO`, whose value differs between targets (5 on
/// Linux); no error number is 0, and that is all that is stated here.
#[verifier::external_body]
fn errno_eio() -> (r: i32)
    ensures
        r != 0,
{
    nix::errno::Errno::EIO as i32
}

/// Whether `code` is the error number a reply carries for a failed operation
/// whose error had the OS error number `raw_os_error`, if any: that number,
/// or else the host's `EIO`, which is not 0.
pub open spec fn is_error_code_for(raw_os_error: Option<i32>, code: i32) -> bool {
    match raw_os_error {
        Some(raw) => code == raw,
        None => code != 0,
    }
}

/// The error number for a failed operation: its OS error number, or the
/// host's `EIO` where it has none.
pub fn error_code(raw_os_error: Option<i32>) -> (r: i32)
    ensures
        is_error_code_for(raw_os_error, r),
        raw_os_error matches Some(raw) ==> r == raw,
        raw_os_error is None ==> r != 0,
{
    match raw_os_error {
        Some(code) => code,
        None => errno_eio(),
    }
}

/// Whether `error` is the error field of the reply to an operation with
/// `outcome`: `0` where it succeeded, else the error number of its failure.
pub open spec fn is_reply_error_for(outcome: Result<(), Option<i32>>, error: i32) -> bool {
    match outcome {
        Ok(()) => error == 0,
        Err(raw) => is_error_code_for(raw, error),
    }
}

/// Whether `reply` is the reply to `request` once its operation has run
/// with `outcome` (`Ok`, or the OS error number of its error, if it had one).
pub open spec fn is_completed_reply(
    request: Request,
    outcome: Result<(), Option<i32>>,
    reply: Reply,
) -> bool {
    &&& reply.magic == REPLY_MAGIC
    &&& reply.handle == request.handle
    &&& is_reply_error_for(outcome, reply.error)
}

/// Builds the reply to `request` once its operation has run.
pub fn completed_reply(request: &Request, outcome: Result<(), Option<i32>>) -> (r: Reply)
    ensures
        is_completed_reply(*request, outcome, r),
        r.magic == REPLY_MAGIC,
        r.handle == request.handle,
        outcome is Ok ==> r.error == 0,
        outcome matches Err(Some(raw)) ==> r.error == raw,
        outcome matches Err(None) ==> r.error != 0,
{
    let mut reply = Reply::from_request(request);
    if let Err(raw) = outcome {
        reply.error = error_code(raw);
    }
    reply
}

/// The bytes sent for `reply`: its header, then `payload` (the data read
/// for a read request, nothing for the others).
pub fn reply_message(reply: &Reply, payload: &[u8]) -> (out: Vec<u8>)
    ensures
        out@ == reply.wire_bytes() + payload@,
{
    let mut out: Vec<u8> = Vec::new();
    let _ = reply.append_to_vec(&mut out);
    let ghost header = out@;
    let n = payload.len();
    let mut i: usize = 0;
    while i < n
        invariant
            i <= n,
            n == payload@.len(),
            header == reply.wire_bytes(),
            out@ == header + payload@.take(i as int),
        decreases n - i,
    {
        out.push(payload[i]);
        assert(payload@.take(i + 1) =~= payload@.take(i as int).push(payload@[i as int]));
        i = i + 1;
    }
    assert(payload@.take(n as int) =~= payload@);
    out
}

/// What the bytes that one read of the client's socket filled mean: `None`
/// at end of stream (nothing read), an error for a short read, else the
/// request they hold.
pub open spec fn spec_next_request(filled: Seq<u8>) -> Option<Result<Request, NbdError>> {
    if filled.len() == 0 {
        None
    } else if filled.len() != SIZE_OF_REQUEST {
        Some(Err(NbdError::UnexpectedEof))
    } else {
        Some(parse_request(filled))
    }
}

/// Turns the bytes of one read of the client's socket into the next request.
pub fn next_request(filled: &[u8]) -> (r: Option<Result<Request, NbdError>>)
    ensures
        r == spec_next_request(filled@),
        r is None <==> filled@.len() == 0,
        filled@.len() != 0 && filled@.len() != SIZE_OF_REQUEST ==> r == Some(
            Err::<Request, NbdError>(NbdError::UnexpectedEof),
        ),
        filled@.len() == SIZE_OF_REQUEST ==> r == Some(parse_request(filled@)),
        r matches Some(Ok(req)) ==> {
            &&& filled@.len() == SIZE_OF_REQUEST
            &&& req.magic == REQUEST_MAGIC
            &&& req.handle == be_value(filled@.subrange(8, 16))
            &&& req.from == be_value(filled@.subrange(16, 24))
            &&& req.len == be_value(filled@.subrange(24, 28))
        },
{
    proof {
        lemma_next_request_meaning(filled@);
    }
    if filled.len() == 0 {
        return None;
    }
    if filled.len() != SIZE_OF_REQUEST {
        return Some(Err(NbdError::UnexpectedEof));
    }
    Some(Request::try_from_bytes(filled))
}

/// The message sent for a request carries the reply magic and the request's
/// handle, reports `0` exactly when its operation succeeded (an operation
/// that failed with OS error number `0` aside), and ends with the payload.
pub proof fn lemma_reply_answers_request(
    request: Request,
    outcome: Result<(), Option<i32>>,
    reply: Reply,
    payload: Seq<u8>,
)
    requires
        is_completed_reply(request, outcome, reply),
        outcome != Err::<(), Option<i32>>(Some(0i32)),
    ensures
        ({
            let m = reply.wire_bytes() + payload;
            &&& m.len() == SIZE_OF_REPLY + payload.len()
            &&& field(m, 0, 4) == REPLY_MAGIC
            &&& field(m, 8, 8) == request.handle
            &&& (field(m, 4, 4) == 0 <==> outcome is Ok)
            &&& m.skip(SIZE_OF_REPLY as int) == payload
        }),
{
    lemma_reply_layout(reply);
    let w = reply.wire_bytes();
    let m = w + payload;
    assert(m.subrange(0, 4) =~= w.subrange(0, 4));
    assert(m.subrange(4, 8) =~= w.subrange(4, 8));
    assert(m.subrange(8, 16) =~= w.subrange(8, 16));
    assert(m.skip(SIZE_OF_REPLY as int) =~= payload);
    assert(i32_bits(reply.error) == 0 <==> reply.error == 0);
}

/// The operation chosen for a request is of the request's kind, and works
/// on exactly the offset and length the request names: a read, write or trim
/// request gets a read, write or trim of `request.len` bytes at
/// `request.from`; a flush request gets a flush; disconnect and write-zeroes
/// requests get no operation.
pub proof fn lemma_operation_serves_request(request: Request)
    ensures
        ({
            let op = operation_of(request);
            &&& (op is Read <==> request.command == Command::Read)
            &&& (op is Write <==> request.command == Command::Write)
            &&& (op is Trim <==> request.command == Command::Trim)
            &&& (op is Flush <==> request.command == Command::Flush)
            &&& (op is Unsupported <==> (request.command == Command::Disc || request.command
                == Command::WriteZeroes))
            &&& match op {
                Operation::Read { offset, len } => offset == request.from && len == request.len,
                Operation::Write { offset, len } => offset == request.from && len == request.len,
                Operation::Trim { offset, len } => offset == request.from && len == request.len,
                _ => true,
            }
        }),
{
}

/// What one read of the client's socket gives: the stream ends exactly when
/// nothing was read; a read of any length but `SIZE_OF_REQUEST` is a short
/// read; a whole request header is read as a request, which then holds the
/// request magic and the whole big-endian handle, offset and length of the
/// bytes read.
pub proof fn lemma_next_request_meaning(filled: Seq<u8>)
    ensures
        spec_next_request(filled) is None <==> filled.len() == 0,
        filled.len() != 0 && filled.len() != SIZE_OF_REQUEST ==> spec_next_request(filled) == Some(
            Err::<Request, NbdError>(NbdError::UnexpectedEof),
        ),
        filled.len() == SIZE_OF_REQUEST ==> spec_next_request(filled) == Some(
            parse_request(filled),
        ),
        spec_next_request(filled) matches Some(Ok(req)) ==> {
            &&& filled.len() == SIZE_OF_REQUEST
            &&& req.magic == REQUEST_MAGIC
            &&& req.handle == be_value(filled.subrange(8, 16))
            &&& req.from == be_value(filled.subrange(16, 24))
            &&& req.len == be_value(filled.subrange(24, 28))
        },
{
    lemma_parse_request_meaning(filled);
}

/// The reply to a request once its operation has run carries the reply magic
/// and the request's handle; its error is `0` after a success, the OS error
/// number of a failure that has one, and a nonzero number (the host's `EIO`)
/// for a failure that has none.
pub proof fn lemma_completed_reply_meaning(
    request: Request,
    outcome: Result<(), Option<i32>>,
    reply: Reply,
)
    requires
        is_completed_reply(request, outcome, reply),
    ensures
        reply.magic == REPLY_MAGIC,
        reply.handle == request.handle,
        outcome is Ok ==> reply.error == 0,
        outcome matches Err(Some(raw)) ==> reply.error == raw,
        outcome matches Err(None) ==> reply.error != 0,
{
}

} // verus!
