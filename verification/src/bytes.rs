//! Bounded little-endian integer reads over untrusted byte slices.

use vstd::prelude::*;

verus! {

/// The little-endian value of the `width` bytes of `data` starting at `off`.
pub open spec fn le_value(data: Seq<u8>, off: int, width: nat) -> nat
    decreases width,
{
    if width == 0 {
        0
    } else {
        data[off] as nat + 256 * le_value(data, off + 1, (width - 1) as nat)
    }
}

/// True when the `width`-byte window at `off` lies inside `data`.
pub open spec fn in_window(data: Seq<u8>, off: int, width: nat) -> bool {
    0 <= off && off + width <= data.len()
}

/// A `u32` read at `off`, or 0 when the four bytes are not all present.
pub open spec fn spec_le_u32(data: Seq<u8>, off: int) -> u32 {
    if in_window(data, off, 4) {
        le_value(data, off, 4) as u32
    } else {
        0
    }
}

/// A `u64` read at `off`, or 0 when the eight bytes are not all present.
pub open spec fn spec_le_u64(data: Seq<u8>, off: int) -> u64 {
    if in_window(data, off, 8) {
        le_value(data, off, 8) as u64
    } else {
        0
    }
}

/// `forensic_vfs::read::le_u32`: the little-endian `u32` at `off`, 0 when the
/// window runs past the end of `data` (or `off + 4` overflows).
#[verifier::external_body]
pub(crate) fn le_u32(data: &[u8], off: usize) -> (r: u32)
    ensures
        r == spec_le_u32(data@, off as int),
{
    forensic_vfs::read::le_u32(data, off)
}

/// `forensic_vfs::read::le_u64`: the little-endian `u64` at `off`, 0 when the
/// window runs past the end of `data` (or `off + 8` overflows).
#[verifier::external_body]
pub(crate) fn le_u64(data: &[u8], off: usize) -> (r: u64)
    ensures
        r == spec_le_u64(data@, off as int),
{
    forensic_vfs::read::le_u64(data, off)
}

} // verus!
