//! Big-endian ("network order") integers on the wire.

use vstd::prelude::*;
use byteorder::{ByteOrder, NetworkEndian};

verus! {

/// `256` raised to the power `n`: one more than the largest value that `n` bytes hold.
pub open spec fn byte_power(n: nat) -> nat
    decreases n,
{
    if n == 0 {
        1
    } else {
        256 * byte_power((n - 1) as nat)
    }
}

/// The value of `bytes` read as a big-endian unsigned integer.
pub open spec fn be_value(bytes: Seq<u8>) -> nat
    decreases bytes.len(),
{
    if bytes.len() == 0 {
        0
    } else {
        be_value(bytes.drop_last()) * 256 + bytes.last() as nat
    }
}

/// The `n` bytes that hold `v` (modulo `256^n`) in big-endian order.
pub open spec fn be_bytes(v: nat, n: nat) -> Seq<u8>
    decreases n,
{
    if n == 0 {
        Seq::empty()
    } else {
        be_bytes(v / 256, (n - 1) as nat).push((v % 256) as u8)
    }
}

/// The unsigned 32-bit pattern of a signed value (two's complement).
pub open spec fn i32_bits(v: i32) -> nat {
    if v >= 0 {
        v as nat
    } else {
        (v + 0x1_0000_0000) as nat
    }
}

/// Calls `NetworkEndian::read_u32` (byteorder), which decodes the first four
/// bytes of its argument as a big-endian `u32`; here those are all of `b`.
#[verifier::external_body]
pub(crate) fn read_be_u32(b: [u8; 4]) -> (r: u32)
    ensures
        r as nat == be_value(b@),
{
    NetworkEndian::read_u32(&b)
}

/// Calls `NetworkEndian::read_u64` (byteorder), which decodes the first eight
/// bytes of its argument as a big-endian `u64`; here those are all of `b`.
#[verifier::external_body]
pub(crate) fn read_be_u64(b: [u8; 8]) -> (r: u64)
    ensures
        r as nat == be_value(b@),
{
    NetworkEndian::read_u64(&b)
}

/// Calls `NetworkEndian::write_u32` (byteorder), which stores `v` big-endian
/// into the first four bytes of the buffer; here the buffer is exactly four bytes.
#[verifier::external_body]
pub(crate) fn write_be_u32(v: u32) -> (r: [u8; 4])
    ensures
        r@ == be_bytes(v as nat, 4),
{
    let mut b = [0u8; 4];
    NetworkEndian::write_u32(&mut b, v);
    b
}

/// Calls `NetworkEndian::write_i32` (byteorder), which stores the two's
/// complement bits of `v` big-endian into the first four bytes of the buffer.
#[verifier::external_body]
pub(crate) fn write_be_i32(v: i32) -> (r: [u8; 4])
    ensures
        r@ == be_bytes(i32_bits(v), 4),
{
    let mut b = [0u8; 4];
    NetworkEndian::write_i32(&mut b, v);
    b
}

/// Calls `NetworkEndian::write_u64` (byteorder), which stores `v` big-endian
/// into the first eight bytes of the buffer; here the buffer is exactly eight bytes.
#[verifier::external_body]
pub(crate) fn write_be_u64(v: u64) -> (r: [u8; 8])
    ensures
        r@ == be_bytes(v as nat, 8),
{
    let mut b = [0u8; 8];
    NetworkEndian::write_u64(&mut b, v);
    b
}

/// `be_bytes` yields exactly `n` bytes.
pub proof fn lemma_be_bytes_len(v: nat, n: nat)
    ensures
        be_bytes(v, n).len() == n,
    decreases n,
{
    if n > 0 {
        lemma_be_bytes_len(v / 256, (n - 1) as nat);
    }
}

/// A big-endian value of `n` bytes is below `256^n`.
pub proof fn lemma_be_value_bound(bytes: Seq<u8>)
    ensures
        be_value(bytes) < byte_power(bytes.len()),
    decreases bytes.len(),
{
    if bytes.len() > 0 {
        let p = bytes.drop_last();
        lemma_be_value_bound(p);
        let x = be_value(p);
        let b = bytes.last() as nat;
        let q = byte_power(p.len());
        assert(x * 256 + b < 256 * q) by (nonlinear_arith)
            requires
                x < q,
                b < 256,
        ;
    }
}

/// Decoding the bytes that encode `v` gives back `v`, when `v` fits in `n` bytes.
pub proof fn lemma_be_value_of_bytes(v: nat, n: nat)
    requires
        v < byte_power(n),
    ensures
        be_value(be_bytes(v, n)) == v,
    decreases n,
{
    if n > 0 {
        let q = byte_power((n - 1) as nat);
        assert(v / 256 < q) by (nonlinear_arith)
            requires
                v < 256 * q,
        ;
        lemma_be_value_of_bytes(v / 256, (n - 1) as nat);
        lemma_be_bytes_len(v / 256, (n - 1) as nat);
        let s = be_bytes(v, n);
        assert(s.drop_last() =~= be_bytes(v / 256, (n - 1) as nat));
    }
}

/// Encoding the value of a byte sequence gives back the same bytes.
pub proof fn lemma_be_bytes_of_value(bytes: Seq<u8>)
    ensures
        be_bytes(be_value(bytes), bytes.len()) == bytes,
    decreases bytes.len(),
{
    if bytes.len() > 0 {
        let p = bytes.drop_last();
        let x = be_value(p);
        let b = bytes.last() as nat;
        assert((x * 256 + b) / 256 == x && (x * 256 + b) % 256 == b) by (nonlinear_arith)
            requires
                b < 256,
        ;
        lemma_be_bytes_of_value(p);
        assert(be_bytes(be_value(bytes), bytes.len()) =~= p.push(bytes.last()));
        assert(p.push(bytes.last()) =~= bytes);
    }
}

} // verus!
