//! Flags of the kernel's NBD device interface.

use vstd::prelude::*;

verus! {

/// Flags are there.
pub const HAS_FLAGS: u64 = 1;
/// Device is read-only.
pub const READ_ONLY: u64 = 2;
/// Send FLUSH.
pub const SEND_FLUSH: u64 = 4;
/// Send FUA (Force Unit Access).
pub const SEND_FUA: u64 = 8;
/// Use elevator algorithm - rotational media.
pub const ROTATIONAL: u64 = 16;
/// Send TRIM (discard).
pub const SEND_TRIM: u64 = 32;
/// Send NBD_CMD_WRITE_ZEROES.
pub const SEND_WRITE_ZEROES: u64 = 64;
/// Multiple connections are okay.
pub const CAN_MULTI_CONN: u64 = 256;

/// The flags a device is attached with: `HAS_FLAGS | READ_ONLY` for a
/// read-only device, none otherwise.
pub fn device_flags(read_only: bool) -> (flags: u64)
    ensures
        flags == (if read_only { HAS_FLAGS | READ_ONLY } else { 0 }),
        flags == (if read_only { 3u64 } else { 0u64 }),
{
    assert(HAS_FLAGS | READ_ONLY == 3u64) by (bit_vector);
    if read_only {
        HAS_FLAGS | READ_ONLY
    } else {
        0
    }
}

} // verus!
