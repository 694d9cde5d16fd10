//! The NBD transmission-phase wire format: 28-byte requests and 16-byte
//! simple replies, all integers in network (big-endian) order.

use vstd::prelude::*;
use crate::wire::{
    be_bytes, be_value, byte_power, i32_bits, lemma_be_bytes_len, lemma_be_value_bound,
    lemma_be_value_of_bytes, read_be_u32, read_be_u64, write_be_i32,
    write_be_u32, write_be_u64,
};

verus! {

pub const CMD_MASK_COMMAND: u32 = 0x0000_ffff;
pub const REQUEST_MAGIC: u32 = 0x2560_9513;
pub const REPLY_MAGIC: u32 = 0x6744_6698;

pub const SIZE_OF_REQUEST: usize = 28;
pub const SIZE_OF_REPLY: usize = 16;

/// The command a client asks for.
#[derive(Clone, Copy, Debug, PartialEq, Eq)]
pub enum Command {
    Read,
    Write,
    Disc,
    Flush,
    Trim,
    WriteZeroes,
}

/// The flag bits of a request that the server reads.
#[derive(Debug, Clone, PartialEq, Eq)]
pub struct RequestFlags {
    /// Force Unit Access.
    pub fua: bool,
    pub no_hole: bool,
}

#[derive(Debug, Clone, PartialEq, Eq)]
pub struct Request {
    pub magic: u32,
    pub command: Command,
    pub flags: RequestFlags,
    pub handle: u64,
    pub from: u64,
    pub len: usize,
}

/// Why a request could not be read, or a reply could not be written.
#[derive(Debug, Clone, Copy, PartialEq, Eq)]
pub enum NbdError {
    /// Fewer bytes than a whole request.
    UnexpectedEof,
    /// The request does not start with `REQUEST_MAGIC`.
    InvalidMagic,
    /// The command code is not one of the known commands.
    InvalidCommand,
    /// The output slice ended before the whole reply was written.
    WriteZero,
}

/// The command that a command code (the low 16 bits of the type field) names.
pub open spec fn command_of_code(code: nat) -> Option<Command> {
    if code == 0 {
        Some(Command::Read)
    } else if code == 1 {
        Some(Command::Write)
    } else if code == 2 {
        Some(Command::Disc)
    } else if code == 3 {
        Some(Command::Flush)
    } else if code == 4 {
        Some(Command::Trim)
    } else if code == 5 {
        Some(Command::WriteZeroes)
    } else {
        None
    }
}

/// The big-endian field of `len` bytes at offset `at` of `d`.
pub open spec fn field(d: Seq<u8>, at: int, len: int) -> nat {
    be_value(d.subrange(at, at + len))
}

/// What a request header means: the request it encodes, or why it encodes none.
///
/// Layout: magic (4 bytes), type (4: flags in the high 16 bits, command in
/// the low 16), handle (8), offset (8), length (4). Bytes after the first 28
/// are not looked at.
pub open spec fn parse_request(d: Seq<u8>) -> Result<Request, NbdError> {
    if d.len() < SIZE_OF_REQUEST {
        Err(NbdError::UnexpectedEof)
    } else if field(d, 0, 4) != REQUEST_MAGIC {
        Err(NbdError::InvalidMagic)
    } else {
        let type_f = field(d, 4, 4);
        match command_of_code(type_f % 0x1_0000) {
            None => Err(NbdError::InvalidCommand),
            Some(command) => Ok(
                Request {
                    magic: REQUEST_MAGIC,
                    command,
                    flags: RequestFlags {
                        fua: (type_f / 0x1_0000) % 2 == 1,
                        no_hole: (type_f / 0x2_0000) % 2 == 1,
                    },
                    handle: field(d, 8, 8) as u64,
                    from: field(d, 16, 8) as u64,
                    len: field(d, 24, 4) as usize,
                },
            ),
        }
    }
}

impl Request {
    /// Reads a request from the first `SIZE_OF_REQUEST` bytes of `d`.
    pub fn try_from_bytes(d: &[u8]) -> (r: Result<Request, NbdError>)
        ensures
            r == parse_request(d@),
            d@.len() < SIZE_OF_REQUEST ==> r == Err::<Request, NbdError>(NbdError::UnexpectedEof),
            d@.len() >= SIZE_OF_REQUEST && be_value(d@.subrange(0, 4)) != REQUEST_MAGIC ==> r
                == Err::<Request, NbdError>(NbdError::InvalidMagic),
            r matches Ok(req) ==> {
                &&& req.magic == REQUEST_MAGIC
                &&& req.handle == be_value(d@.subrange(8, 16))
                &&& req.from == be_value(d@.subrange(16, 24))
                &&& req.len == be_value(d@.subrange(24, 28))
            },
    {
        proof {
            lemma_parse_request_meaning(d@);
        }
        if d.len() < SIZE_OF_REQUEST {
            return Err(NbdError::UnexpectedEof);
        }
        let magic_b = [d[0], d[1], d[2], d[3]];
        let type_b = [d[4], d[5], d[6], d[7]];
        let handle_b = [d[8], d[9], d[10], d[11], d[12], d[13], d[14], d[15]];
        let from_b = [d[16], d[17], d[18], d[19], d[20], d[21], d[22], d[23]];
        let len_b = [d[24], d[25], d[26], d[27]];
        assert(magic_b@ =~= d@.subrange(0, 4));
        assert(type_b@ =~= d@.subrange(4, 8));
        assert(handle_b@ =~= d@.subrange(8, 16));
        assert(from_b@ =~= d@.subrange(16, 24));
        assert(len_b@ =~= d@.subrange(24, 28));
        let magic = read_be_u32(magic_b);
        let type_f = read_be_u32(type_b);
        let handle = read_be_u64(handle_b);
        let from = read_be_u64(from_b);
        let len = read_be_u32(len_b) as usize;
        if magic != REQUEST_MAGIC {
            return Err(NbdError::InvalidMagic);
        }
        let code = type_f & CMD_MASK_COMMAND;
        assert(type_f & 0xffff == type_f % 0x1_0000) by (bit_vector);
        let command = if code == 0 {
            Command::Read
        } else if code == 1 {
            Command::Write
        } else if code == 2 {
            Command::Disc
        } else if code == 3 {
            Command::Flush
        } else if code == 4 {
            Command::Trim
        } else if code == 5 {
            Command::WriteZeroes
        } else {
            return Err(NbdError::InvalidCommand);
        };
        let flags = type_f >> 16;
        let fua = flags & 1 == 1;
        let no_hole = flags & (1 << 1) == (1 << 1);
        assert(((type_f >> 16) & 1 == 1) == ((type_f / 0x1_0000) % 2 == 1)) by (bit_vector);
        assert(((type_f >> 16) & (1u32 << 1u32) == (1u32 << 1u32)) == ((type_f / 0x2_0000) % 2 == 1))
            by (bit_vector);
        Ok(Request { magic, command, flags: RequestFlags { fua, no_hole }, handle, from, len })
    }
}

#[derive(Debug, Clone, PartialEq, Eq)]
pub struct Reply {
    pub magic: u32,
    pub error: i32,
    pub handle: u64,
}

impl Reply {
    /// The `SIZE_OF_REPLY` bytes that encode this reply: magic, error, handle.
    pub open spec fn wire_bytes(self) -> Seq<u8> {
        be_bytes(self.magic as nat, 4) + be_bytes(i32_bits(self.error), 4) + be_bytes(
            self.handle as nat,
            8,
        )
    }

    /// The successful reply to `request`.
    pub fn from_request(request: &Request) -> (r: Reply)
        ensures
            r == (Reply { magic: REPLY_MAGIC, error: 0, handle: request.handle }),
    {
        Self { magic: REPLY_MAGIC, handle: request.handle, error: 0 }
    }

    fn encode(&self) -> (r: [u8; 16])
        ensures
            r@ == self.wire_bytes(),
    {
        let m = write_be_u32(self.magic);
        let e = write_be_i32(self.error);
        let h = write_be_u64(self.handle);
        let r = [
            m[0], m[1], m[2], m[3], e[0], e[1], e[2], e[3],
            h[0], h[1], h[2], h[3], h[4], h[5], h[6], h[7],
        ];
        proof {
            lemma_be_bytes_len(self.magic as nat, 4);
            lemma_be_bytes_len(i32_bits(self.error), 4);
            lemma_be_bytes_len(self.handle as nat, 8);
        }
        assert(r@ =~= self.wire_bytes());
        r
    }

    /// Appends the encoded reply to `buf`.
    pub fn append_to_vec(&self, buf: &mut Vec<u8>) -> (r: Result<(), NbdError>)
        ensures
            final(buf)@ == old(buf)@ + self.wire_bytes(),
            r is Ok,
    {
        let bytes = self.encode();
        let mut i: usize = 0;
        while i < 16
            invariant
                i <= 16,
                bytes@ == self.wire_bytes(),
                buf@ == old(buf)@ + bytes@.take(i as int),
            decreases 16 - i,
        {
            buf.push(bytes[i]);
            assert(bytes@.take(i + 1) =~= bytes@.take(i as int).push(bytes[i as int]));
            i = i + 1;
        }
        assert(bytes@.take(16) =~= bytes@);
        Ok(())
    }

    /// Writes the encoded reply to the start of `slice`. Where the slice is
    /// shorter than a reply, it is filled with the start of the encoding and
    /// the write fails.
    pub fn write_to_slice(&self, slice: &mut [u8]) -> (r: Result<(), NbdError>)
        ensures
            final(slice)@ == written_reply(old(slice)@, *self),
            final(slice)@.len() == old(slice)@.len(),
            old(slice)@.len() >= SIZE_OF_REPLY ==> final(slice)@.take(SIZE_OF_REPLY as int)
                == self.wire_bytes() && final(slice)@.skip(SIZE_OF_REPLY as int) == old(
                slice,
            )@.skip(SIZE_OF_REPLY as int),
            r is Ok <==> old(slice)@.len() >= SIZE_OF_REPLY,
            r matches Err(e) ==> e == NbdError::WriteZero,
    {
        proof {
            lemma_written_reply(old(slice)@, *self);
        }
        let bytes = self.encode();
        let n = slice.len();
        let mut i: usize = 0;
        while i < 16 && i < n
            invariant
                i <= 16,
                i <= n,
                n == slice@.len(),
                n == old(slice)@.len(),
                bytes@ == self.wire_bytes(),
                slice@ == bytes@.take(i as int) + old(slice)@.skip(i as int),
            decreases 16 - i,
        {
            slice[i] = bytes[i];
            assert(slice@ =~= bytes@.take(i + 1) + old(slice)@.skip(i + 1));
            i = i + 1;
        }
        if n < 16 {
            assert(slice@ =~= bytes@.take(n as int));
            Err(NbdError::WriteZero)
        } else {
            assert(bytes@.take(16) =~= bytes@);
            Ok(())
        }
    }
}

/// The contents of a slice that held `before` after `reply` was written to it.
pub open spec fn written_reply(before: Seq<u8>, reply: Reply) -> Seq<u8> {
    if before.len() >= SIZE_OF_REPLY {
        reply.wire_bytes() + before.skip(SIZE_OF_REPLY as int)
    } else {
        reply.wire_bytes().take(before.len() as int)
    }
}

/// A request is read from its first `SIZE_OF_REQUEST` bytes alone: what
/// follows them does not change the outcome.
pub proof fn lemma_parse_ignores_trailing(d: Seq<u8>)
    requires
        d.len() >= SIZE_OF_REQUEST,
    ensures
        parse_request(d) == parse_request(d.take(SIZE_OF_REQUEST as int)),
{
    let t = d.take(SIZE_OF_REQUEST as int);
    assert(d.subrange(0, 4) =~= t.subrange(0, 4));
    assert(d.subrange(4, 8) =~= t.subrange(4, 8));
    assert(d.subrange(8, 16) =~= t.subrange(8, 16));
    assert(d.subrange(16, 24) =~= t.subrange(16, 24));
    assert(d.subrange(24, 28) =~= t.subrange(24, 28));
}

/// The bytes of a request header with the given fields, in wire order.
pub open spec fn request_header(magic: u32, type_f: u32, handle: u64, from: u64, len: u32) -> Seq<u8> {
    be_bytes(magic as nat, 4) + be_bytes(type_f as nat, 4) + be_bytes(handle as nat, 8) + be_bytes(
        from as nat,
        8,
    ) + be_bytes(len as nat, 4)
}

proof fn lemma_fits(v: nat, n: nat, bound: nat)
    requires
        v < bound,
        bound == byte_power(n),
    ensures
        be_value(be_bytes(v, n)) == v,
        be_bytes(v, n).len() == n,
{
    lemma_be_value_of_bytes(v, n);
    lemma_be_bytes_len(v, n);
}

/// Reading a header written in the wire layout gives back its fields: the
/// handle, offset and length as written, the command that the low 16 bits of
/// the type field name (or `InvalidCommand` where they name none), and the
/// flags from bits 16 and 17. Bytes after the header do not matter.
pub proof fn lemma_request_layout(type_f: u32, handle: u64, from: u64, len: u32, rest: Seq<u8>)
    ensures
        parse_request(request_header(REQUEST_MAGIC, type_f, handle, from, len) + rest) == match command_of_code(
            type_f as nat % 0x1_0000,
        ) {
            None => Err(NbdError::InvalidCommand),
            Some(command) => Ok(
                Request {
                    magic: REQUEST_MAGIC,
                    command,
                    flags: RequestFlags {
                        fua: (type_f as nat / 0x1_0000) % 2 == 1,
                        no_hole: (type_f as nat / 0x2_0000) % 2 == 1,
                    },
                    handle,
                    from,
                    len: len as usize,
                },
            ),
        },
{
    reveal_with_fuel(byte_power, 9);
    lemma_fits(REQUEST_MAGIC as nat, 4, 0x1_0000_0000);
    lemma_fits(type_f as nat, 4, 0x1_0000_0000);
    lemma_fits(handle as nat, 8, 0x1_0000_0000_0000_0000);
    lemma_fits(from as nat, 8, 0x1_0000_0000_0000_0000);
    lemma_fits(len as nat, 4, 0x1_0000_0000);
    let d = request_header(REQUEST_MAGIC, type_f, handle, from, len) + rest;
    assert(d.subrange(0, 4) =~= be_bytes(REQUEST_MAGIC as nat, 4));
    assert(d.subrange(4, 8) =~= be_bytes(type_f as nat, 4));
    assert(d.subrange(8, 16) =~= be_bytes(handle as nat, 8));
    assert(d.subrange(16, 24) =~= be_bytes(from as nat, 8));
    assert(d.subrange(24, 28) =~= be_bytes(len as nat, 4));
}

/// A reply is `SIZE_OF_REPLY` bytes, from which its magic, error (as its
/// two's complement bits) and handle are read back at offsets 0, 4 and 8.
pub proof fn lemma_reply_layout(reply: Reply)
    ensures
        reply.wire_bytes().len() == SIZE_OF_REPLY,
        field(reply.wire_bytes(), 0, 4) == reply.magic,
        field(reply.wire_bytes(), 4, 4) == i32_bits(reply.error),
        field(reply.wire_bytes(), 8, 8) == reply.handle,
{
    reveal_with_fuel(byte_power, 9);
    lemma_fits(reply.magic as nat, 4, 0x1_0000_0000);
    lemma_fits(i32_bits(reply.error), 4, 0x1_0000_0000);
    lemma_fits(reply.handle as nat, 8, 0x1_0000_0000_0000_0000);
    let w = reply.wire_bytes();
    assert(w.subrange(0, 4) =~= be_bytes(reply.magic as nat, 4));
    assert(w.subrange(4, 8) =~= be_bytes(i32_bits(reply.error), 4));
    assert(w.subrange(8, 16) =~= be_bytes(reply.handle as nat, 8));
}

/// Appending a reply to a buffer and writing it to a slice that has room
/// for it put down the same `SIZE_OF_REPLY` bytes.
pub proof fn lemma_reply_writers_agree(reply: Reply, buf: Seq<u8>, slice: Seq<u8>)
    requires
        slice.len() >= SIZE_OF_REPLY,
    ensures
        written_reply(slice, reply).take(SIZE_OF_REPLY as int) == (buf + reply.wire_bytes()).skip(
            buf.len() as int,
        ),
{
    lemma_reply_layout(reply);
    assert(written_reply(slice, reply).take(SIZE_OF_REPLY as int) =~= reply.wire_bytes());
    assert((buf + reply.wire_bytes()).skip(buf.len() as int) =~= reply.wire_bytes());
}

/// The big-endian value of four bytes, written out.
proof fn lemma_be_value4(s: Seq<u8>)
    requires
        s.len() == 4,
    ensures
        be_value(s) == s[0] as nat * 0x100_0000 + s[1] as nat * 0x1_0000 + s[2] as nat * 0x100
            + s[3] as nat,
{
    let s3 = s.drop_last();
    let s2 = s3.drop_last();
    let s1 = s2.drop_last();
    let s0 = s1.drop_last();
    assert(s0.len() == 0);
    assert(be_value(s0) == 0);
    assert(s1.last() == s[0] && s2.last() == s[1] && s3.last() == s[2] && s.last() == s[3]);
    assert(be_value(s1) == s[0] as nat);
    assert(be_value(s2) == s[0] as nat * 256 + s[1] as nat);
    assert(be_value(s3) == (s[0] as nat * 256 + s[1] as nat) * 256 + s[2] as nat);
    assert(be_value(s) == ((s[0] as nat * 256 + s[1] as nat) * 256 + s[2] as nat) * 256
        + s[3] as nat);
    assert(((s[0] as nat * 256 + s[1] as nat) * 256 + s[2] as nat) * 256 + s[3] as nat == s[0] as nat
        * 0x100_0000 + s[1] as nat * 0x1_0000 + s[2] as nat * 0x100 + s[3] as nat) by (nonlinear_arith);
}

/// What reading a request means, in terms of the bytes read:
/// - fewer than `SIZE_OF_REQUEST` bytes give `UnexpectedEof`;
/// - otherwise, a first word (big-endian) other than `REQUEST_MAGIC` gives `InvalidMagic`;
/// - otherwise, a command number (bytes 6 and 7, big-endian) above 5 gives `InvalidCommand`;
/// - otherwise the request is read, and it holds the request magic, the whole
///   big-endian handle (bytes 8 to 15), offset (16 to 23) and length (24 to 27),
///   the command that its number names, FUA from bit 0 of byte 5 and
///   no-hole from bit 1 of byte 5.
pub proof fn lemma_parse_request_meaning(d: Seq<u8>)
    ensures
        d.len() < SIZE_OF_REQUEST ==> parse_request(d) == Err::<Request, NbdError>(
            NbdError::UnexpectedEof,
        ),
        d.len() >= SIZE_OF_REQUEST && be_value(d.subrange(0, 4)) != REQUEST_MAGIC ==> parse_request(
            d,
        ) == Err::<Request, NbdError>(NbdError::InvalidMagic),
        d.len() >= SIZE_OF_REQUEST && be_value(d.subrange(0, 4)) == REQUEST_MAGIC && d[6] as nat
            * 256 + d[7] as nat > 5 ==> parse_request(d) == Err::<Request, NbdError>(
            NbdError::InvalidCommand,
        ),
        parse_request(d) is Ok <==> (d.len() >= SIZE_OF_REQUEST && be_value(d.subrange(0, 4))
            == REQUEST_MAGIC && d[6] as nat * 256 + d[7] as nat <= 5),
        parse_request(d) matches Ok(r) ==> {
            let code = d[6] as nat * 256 + d[7] as nat;
            &&& r.magic == REQUEST_MAGIC
            &&& r.handle == be_value(d.subrange(8, 16))
            &&& r.from == be_value(d.subrange(16, 24))
            &&& r.len == be_value(d.subrange(24, 28))
            &&& (r.command == Command::Read <==> code == 0)
            &&& (r.command == Command::Write <==> code == 1)
            &&& (r.command == Command::Disc <==> code == 2)
            &&& (r.command == Command::Flush <==> code == 3)
            &&& (r.command == Command::Trim <==> code == 4)
            &&& (r.command == Command::WriteZeroes <==> code == 5)
            &&& r.flags.fua == (d[5] % 2 == 1)
            &&& r.flags.no_hole == ((d[5] / 2) % 2 == 1)
        },
{
    if d.len() >= SIZE_OF_REQUEST {
        let t = d.subrange(4, 8);
        lemma_be_value4(t);
        let b0 = d[4] as nat;
        let b1 = d[5] as nat;
        let b2 = d[6] as nat;
        let b3 = d[7] as nat;
        assert(t[0] == d[4] && t[1] == d[5] && t[2] == d[6] && t[3] == d[7]);
        let v = field(d, 4, 4);
        assert(v == b0 * 0x100_0000 + b1 * 0x1_0000 + b2 * 0x100 + b3);
        let hi = b0 * 256 + b1;
        let lo = b2 * 256 + b3;
        assert(v == hi * 0x1_0000 + lo);
        assert(v / 0x1_0000 == hi && v % 0x1_0000 == lo) by (nonlinear_arith)
            requires
                v == hi * 0x1_0000 + lo,
                lo < 0x1_0000,
        ;
        assert(v / 0x2_0000 == hi / 2) by (nonlinear_arith)
            requires
                v / 0x1_0000 == hi,
        ;
        assert(hi % 2 == b1 % 2 && (hi / 2) % 2 == (b1 / 2) % 2);
        lemma_be_value_bound(d.subrange(8, 16));
        lemma_be_value_bound(d.subrange(16, 24));
        lemma_be_value_bound(d.subrange(24, 28));
        reveal_with_fuel(byte_power, 9);
    }
}

/// Writing a reply to a slice keeps its length. Where the slice has room,
/// its first `SIZE_OF_REPLY` bytes become the reply and the rest is left as it
/// was; where it has not, it is filled with the start of the reply.
pub proof fn lemma_written_reply(before: Seq<u8>, reply: Reply)
    ensures
        written_reply(before, reply).len() == before.len(),
        before.len() >= SIZE_OF_REPLY ==> written_reply(before, reply).take(SIZE_OF_REPLY as int)
            == reply.wire_bytes(),
        before.len() >= SIZE_OF_REPLY ==> written_reply(before, reply).skip(SIZE_OF_REPLY as int)
            == before.skip(SIZE_OF_REPLY as int),
        before.len() < SIZE_OF_REPLY ==> forall|i: int|
            0 <= i < before.len() ==> #[trigger] written_reply(before, reply)[i]
                == reply.wire_bytes()[i],
{
    lemma_reply_layout(reply);
    if before.len() >= SIZE_OF_REPLY {
        let w = written_reply(before, reply);
        assert(w.take(SIZE_OF_REPLY as int) =~= reply.wire_bytes());
        assert(w.skip(SIZE_OF_REPLY as int) =~= before.skip(SIZE_OF_REPLY as int));
    }
}

} // verus!
