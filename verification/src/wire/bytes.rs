//! Numbers in network byte order.

use vstd::prelude::*;

verus! {

/// The 16-bit number whose big-endian bytes start at `at`.
pub open spec fn be16(bytes: Seq<u8>, at: int) -> int {
    bytes[at] * 0x100 + bytes[at + 1]
}

/// The 32-bit number whose big-endian bytes start at `at`.
pub open spec fn be32(bytes: Seq<u8>, at: int) -> int {
    be16(bytes, at) * 0x1_0000 + be16(bytes, at + 2)
}

/// The big-endian bytes of a 16-bit number.
pub open spec fn be16_bytes(value: u16) -> Seq<u8> {
    seq![(value / 0x100) as u8, (value % 0x100) as u8]
}

/// The big-endian bytes of a 32-bit number.
pub open spec fn be32_bytes(value: u32) -> Seq<u8> {
    be16_bytes((value / 0x1_0000) as u16) + be16_bytes((value % 0x1_0000) as u16)
}

/// The little-endian bytes of a 16-bit number.
pub open spec fn le16_bytes(value: u16) -> Seq<u8> {
    seq![(value % 0x100) as u8, (value / 0x100) as u8]
}

} // verus!
