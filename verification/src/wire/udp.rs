//! UDP datagrams.

use crate::wire::bytes::be16;
use vstd::prelude::*;

verus! {

/// Whether a UDP header is there and its length field fits the bytes that are there.
pub open spec fn udp_ok(datagram: Seq<u8>) -> bool {
    datagram.len() >= 8 && 8 <= be16(datagram, 4) <= datagram.len()
}

/// The source port of a datagram.
pub open spec fn src_port_field(datagram: Seq<u8>) -> int {
    be16(datagram, 0)
}

/// The destination port of a datagram.
pub open spec fn dst_port_field(datagram: Seq<u8>) -> int {
    be16(datagram, 2)
}

/// Whether `smoltcp`'s `UdpPacket::new_checked` accepts the bytes, which is a matter of lengths.
#[verifier::external_body]
pub(crate) fn new_checked(datagram: &[u8]) -> (accepted: bool)
    ensures
        accepted == udp_ok(datagram@),
{
    smoltcp::wire::UdpPacket::new_checked(datagram).is_ok()
}

/// The source port of a datagram: `smoltcp`'s `UdpPacket::src_port`.
#[verifier::external_body]
pub(crate) fn src_port(datagram: &[u8]) -> (port: u16)
    requires
        datagram@.len() >= 8,
    ensures
        port == src_port_field(datagram@),
{
    smoltcp::wire::UdpPacket::new_unchecked(datagram).src_port()
}

/// The destination port of a datagram: `smoltcp`'s `UdpPacket::dst_port`.
#[verifier::external_body]
pub(crate) fn dst_port(datagram: &[u8]) -> (port: u16)
    requires
        datagram@.len() >= 8,
    ensures
        port == dst_port_field(datagram@),
{
    smoltcp::wire::UdpPacket::new_unchecked(datagram).dst_port()
}

} // verus!
