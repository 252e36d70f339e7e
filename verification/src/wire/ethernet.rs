//! Ethernet frames.

use crate::wire::bytes::{be16, be16_bytes};
use vstd::prelude::*;

verus! {

/// A six-byte Ethernet hardware address.
#[derive(Clone, Copy, Debug, PartialEq, Eq)]
pub struct EthernetAddress(pub [u8; 6]);

impl View for EthernetAddress {
    type V = Seq<u8>;

    open spec fn view(&self) -> Seq<u8> {
        self.0@
    }
}

/// The length of a frame's header.
pub const ETHERNET_HEADER_LEN: usize = 14;

/// The protocol number of IPv4 packets in frames.
pub const ETHERTYPE_IPV4: u16 = 0x0800;

/// The protocol number of ARP packets in frames.
pub const ETHERTYPE_ARP: u16 = 0x0806;

/// Whether a frame holds a whole header.
pub open spec fn frame_ok(frame: Seq<u8>) -> bool {
    frame.len() >= ETHERNET_HEADER_LEN
}

/// The protocol number of a frame.
pub open spec fn ethertype_field(frame: Seq<u8>) -> int {
    be16(frame, 12)
}

/// What a frame carries after its header.
pub open spec fn frame_payload(frame: Seq<u8>) -> Seq<u8> {
    frame.skip(ETHERNET_HEADER_LEN as int)
}

/// The bytes of a frame.
pub open spec fn frame_bytes(
    destination: Seq<u8>,
    source: Seq<u8>,
    ethertype: u16,
    payload: Seq<u8>,
) -> Seq<u8> {
    destination + source + be16_bytes(ethertype) + payload
}

/// Whether `smoltcp`'s `EthernetFrame::new_checked` accepts the bytes: the header has to be whole.
#[verifier::external_body]
pub(crate) fn new_checked(frame: &[u8]) -> (accepted: bool)
    ensures
        accepted == frame_ok(frame@),
{
    smoltcp::wire::EthernetFrame::new_checked(frame).is_ok()
}

/// The protocol number of a frame: `smoltcp`'s `EthernetFrame::ethertype`.
#[verifier::external_body]
pub(crate) fn ethertype(frame: &[u8]) -> (number: u16)
    requires
        frame_ok(frame@),
    ensures
        number == ethertype_field(frame@),
{
    u16::from(smoltcp::wire::EthernetFrame::new_unchecked(frame).ethertype())
}

/// What a frame carries: `smoltcp`'s `EthernetFrame::payload`, the bytes after the header.
#[verifier::external_body]
pub(crate) fn payload(frame: &[u8]) -> (payload: &[u8])
    requires
        frame_ok(frame@),
    ensures
        payload@ == frame_payload(frame@),
{
    smoltcp::wire::EthernetFrame::new_unchecked(frame).payload()
}

/// The length of a frame with a payload of the given length: `smoltcp`'s
/// `EthernetFrame::buffer_len`.
#[verifier::external_body]
pub(crate) fn buffer_len(payload_len: usize) -> (len: usize)
    requires
        payload_len + ETHERNET_HEADER_LEN <= usize::MAX,
    ensures
        len == payload_len + ETHERNET_HEADER_LEN,
{
    smoltcp::wire::EthernetFrame::<&[u8]>::buffer_len(payload_len)
}

/// Writes the destination address: `smoltcp`'s `EthernetFrame::set_dst_addr`, the first six bytes.
#[verifier::external_body]
pub(crate) fn set_dst_addr(frame: &mut Vec<u8>, address: EthernetAddress)
    requires
        frame_ok(old(frame)@),
    ensures
        final(frame)@ == address@ + old(frame)@.skip(6),
{
    let address = smoltcp::wire::EthernetAddress(address.0);
    smoltcp::wire::EthernetFrame::new_unchecked(frame.as_mut_slice()).set_dst_addr(address)
}

/// Writes the source address: `smoltcp`'s `EthernetFrame::set_src_addr`, the second six bytes.
#[verifier::external_body]
pub(crate) fn set_src_addr(frame: &mut Vec<u8>, address: EthernetAddress)
    requires
        frame_ok(old(frame)@),
    ensures
        final(frame)@ == old(frame)@.take(6) + address@ + old(frame)@.skip(12),
{
    let address = smoltcp::wire::EthernetAddress(address.0);
    smoltcp::wire::EthernetFrame::new_unchecked(frame.as_mut_slice()).set_src_addr(address)
}

/// Writes the protocol number: `smoltcp`'s `EthernetFrame::set_ethertype`, the two bytes after the
/// addresses.
#[verifier::external_body]
pub(crate) fn set_ethertype(frame: &mut Vec<u8>, number: u16)
    requires
        frame_ok(old(frame)@),
    ensures
        final(frame)@ == old(frame)@.take(12) + be16_bytes(number) + old(frame)@.skip(14),
{
    let number = smoltcp::wire::EthernetProtocol::from(number);
    smoltcp::wire::EthernetFrame::new_unchecked(frame.as_mut_slice()).set_ethertype(number)
}

/// Writes the payload, into what `smoltcp`'s `EthernetFrame::payload_mut` hands out: the bytes
/// after the header, as many as the payload has.
#[verifier::external_body]
pub(crate) fn set_payload(frame: &mut Vec<u8>, payload: &[u8])
    requires
        old(frame)@.len() == ETHERNET_HEADER_LEN + payload@.len(),
    ensures
        final(frame)@ == old(frame)@.take(ETHERNET_HEADER_LEN as int) + payload@,
{
    let mut frame = smoltcp::wire::EthernetFrame::new_unchecked(frame.as_mut_slice());
    frame.payload_mut().copy_from_slice(payload)
}

/// Puts a payload into a frame.
pub fn ethernet_frame(
    destination: EthernetAddress,
    source: EthernetAddress,
    ethertype: u16,
    payload: &[u8],
) -> (frame: Vec<u8>)
    requires
        payload@.len() + ETHERNET_HEADER_LEN <= usize::MAX,
    ensures
        frame@ == frame_bytes(destination@, source@, ethertype, payload@),
{
    let len: usize = buffer_len(payload.len());
    let mut frame: Vec<u8> = vec![0; len];
    set_dst_addr(&mut frame, destination);
    set_src_addr(&mut frame, source);
    set_ethertype(&mut frame, ethertype);
    set_payload(&mut frame, payload);
    proof {
        assert(frame@ =~= frame_bytes(destination@, source@, ethertype, payload@));
    }
    frame
}

/// What is put into a frame comes out of it: the frame has a whole header, its protocol number is
/// the one given and its payload the one given.
pub proof fn frame_carries_payload(
    destination: Seq<u8>,
    source: Seq<u8>,
    ethertype: u16,
    payload: Seq<u8>,
)
    requires
        destination.len() == 6,
        source.len() == 6,
    ensures
        frame_ok(frame_bytes(destination, source, ethertype, payload)),
        ethertype_field(frame_bytes(destination, source, ethertype, payload)) == ethertype,
        frame_payload(frame_bytes(destination, source, ethertype, payload)) == payload,
{
    assert(frame_payload(frame_bytes(destination, source, ethertype, payload)) =~= payload);
}

/// A frame is the two addresses, the protocol number with its high half first, and the payload.
pub proof fn frame_layout(
    destination: Seq<u8>,
    source: Seq<u8>,
    ethertype: u16,
    payload: Seq<u8>,
)
    requires
        destination.len() == 6,
        source.len() == 6,
    ensures
        ({
            let frame = frame_bytes(destination, source, ethertype, payload);
            &&& frame.len() == 14 + payload.len()
            &&& frame.take(6) == destination
            &&& frame.subrange(6, 12) == source
            &&& frame[12] * 256 + frame[13] == ethertype
            &&& frame.skip(14) == payload
        }),
{
    let frame = frame_bytes(destination, source, ethertype, payload);
    assert(frame.take(6) =~= destination);
    assert(frame.subrange(6, 12) =~= source);
    assert(frame.skip(14) =~= payload);
}

} // verus!
