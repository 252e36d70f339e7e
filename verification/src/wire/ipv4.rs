//! IPv4 addresses, subnets and packets.

use crate::wire::bytes::{be16, be32};
use vstd::prelude::*;

verus! {

/// An IPv4 address.
#[derive(Clone, Copy, Debug, PartialEq, Eq, Structural)]
pub struct Ipv4Address {
    /// The four octets as one number, the first octet highest.
    pub bits: u32,
}

impl Ipv4Address {
    /// The address `a.b.c.d`.
    pub fn new(a: u8, b: u8, c: u8, d: u8) -> (address: Ipv4Address)
        ensures
            address.bits == be32(seq![a, b, c, d], 0),
    {
        let bits: u32 = a as u32 * 0x100_0000 + b as u32 * 0x1_0000 + c as u32 * 0x100 + d as u32;
        Ipv4Address { bits }
    }
}

/// A subnet: the addresses that share their first `prefix_len` bits with `address`.
#[derive(Clone, Copy, Debug, PartialEq, Eq)]
pub struct Ipv4Cidr {
    address: Ipv4Address,
    prefix_len: u8,
}

/// Whether two addresses agree on their first `prefix_len` bits.
pub open spec fn same_prefix(a: Ipv4Address, b: Ipv4Address, prefix_len: u8) -> bool {
    let host_range = vstd::arithmetic::power2::pow2((32 - prefix_len) as nat);
    a.bits as nat / host_range == b.bits as nat / host_range
}

impl Ipv4Cidr {
    #[verifier::type_invariant]
    spec fn valid_prefix(self) -> bool {
        self.prefix_len <= 32
    }

    /// The address that the subnet was given by.
    pub closed spec fn spec_address(self) -> Ipv4Address {
        self.address
    }

    /// The number of leading bits that the addresses of the subnet share.
    pub closed spec fn spec_prefix_len(self) -> u8 {
        self.prefix_len
    }

    /// Whether the subnet contains the address.
    pub open spec fn contains(self, address: Ipv4Address) -> bool {
        same_prefix(self.spec_address(), address, self.spec_prefix_len())
    }

    /// The subnet of `address` with the given prefix length.
    pub fn new(address: Ipv4Address, prefix_len: u8) -> (cidr: Ipv4Cidr)
        requires
            prefix_len <= 32,
        ensures
            cidr.spec_address() == address,
            cidr.spec_prefix_len() == prefix_len,
    {
        Ipv4Cidr { address, prefix_len }
    }

    /// Whether the subnet contains the address.
    pub fn contains_addr(&self, address: &Ipv4Address) -> (contained: bool)
        ensures
            contained == self.contains(*address),
    {
        proof {
            use_type_invariant(self);
        }
        cidr_contains_addr(self.address, self.prefix_len, *address)
    }
}

/// Whether the subnet `network/prefix_len` contains the address: `smoltcp`'s
/// `Ipv4Cidr::contains_addr`, which compares the leading bits of the two.
#[verifier::external_body]
fn cidr_contains_addr(network: Ipv4Address, prefix_len: u8, address: Ipv4Address) -> (contained: bool)
    requires
        prefix_len <= 32,
    ensures
        contained == same_prefix(network, address, prefix_len),
{
    let network = smoltcp::wire::Ipv4Address::from_bits(network.bits);
    let address = smoltcp::wire::Ipv4Address::from_bits(address.bits);
    smoltcp::wire::Ipv4Cidr::new(network, prefix_len).contains_addr(&address)
}

/// The header length that a packet's first byte gives, in bytes.
pub open spec fn header_len_field(packet: Seq<u8>) -> int {
    packet[0] % 16 * 4
}

/// The total length that a packet's header gives, in bytes.
pub open spec fn total_len_field(packet: Seq<u8>) -> int {
    be16(packet, 2)
}

/// The destination address that a packet's header gives.
pub open spec fn dst_addr_field(packet: Seq<u8>) -> Ipv4Address {
    Ipv4Address { bits: be32(packet, 16) as u32 }
}

/// The sum of the 16-bit words in `bytes`, which has an even length.
pub open spec fn word_sum(bytes: Seq<u8>) -> int
    decreases bytes.len(),
{
    if bytes.len() < 2 {
        0
    } else {
        be16(bytes, 0) + word_sum(bytes.skip(2))
    }
}

/// Whether the header checksum is right: the one's complement sum over the header is all ones.
pub open spec fn header_checksum_ok(packet: Seq<u8>) -> bool {
    let sum = word_sum(packet.take(header_len_field(packet)));
    sum > 0 && sum % 0xffff == 0
}

/// Whether the lengths in the header fit each other and the bytes that are there.
pub open spec fn lengths_ok(packet: Seq<u8>) -> bool {
    &&& packet.len() >= 20
    &&& header_len_field(packet) <= packet.len()
    &&& header_len_field(packet) <= total_len_field(packet)
    &&& total_len_field(packet) <= packet.len()
}

/// The header length of a packet: `smoltcp`'s `Ipv4Packet::header_len`, four times the low half of
/// the first byte.
#[verifier::external_body]
pub(crate) fn header_len(packet: &[u8]) -> (len: u8)
    requires
        packet@.len() >= 1,
    ensures
        len == header_len_field(packet@),
{
    smoltcp::wire::Ipv4Packet::new_unchecked(packet).header_len()
}

/// The total length of a packet: `smoltcp`'s `Ipv4Packet::total_len`, the big-endian number in the
/// third and fourth bytes.
#[verifier::external_body]
pub(crate) fn total_len(packet: &[u8]) -> (len: u16)
    requires
        packet@.len() >= 4,
    ensures
        len == total_len_field(packet@),
{
    smoltcp::wire::Ipv4Packet::new_unchecked(packet).total_len()
}

/// The destination address of a packet: `smoltcp`'s `Ipv4Packet::dst_addr`, the bytes from 16 to 19.
#[verifier::external_body]
pub(crate) fn dst_addr(packet: &[u8]) -> (address: Ipv4Address)
    requires
        packet@.len() >= 20,
    ensures
        address == dst_addr_field(packet@),
{
    Ipv4Address { bits: smoltcp::wire::Ipv4Packet::new_unchecked(packet).dst_addr().to_bits() }
}

/// Whether the header checksum of a packet is right: `smoltcp`'s `Ipv4Packet::verify_checksum`,
/// which sums the header as RFC 1071 says. The header has to be there.
#[verifier::external_body]
pub(crate) fn verify_checksum(packet: &[u8]) -> (right: bool)
    requires
        packet@.len() >= 1,
        packet@.len() >= header_len_field(packet@),
    ensures
        right == header_checksum_ok(packet@),
{
    smoltcp::wire::Ipv4Packet::new_unchecked(packet).verify_checksum()
}

/// Whether `smoltcp`'s `Ipv4Packet::new_checked` accepts the bytes, which is a matter of lengths.
#[verifier::external_body]
pub(crate) fn new_checked(packet: &[u8]) -> (accepted: bool)
    ensures
        accepted == lengths_ok(packet@),
{
    smoltcp::wire::Ipv4Packet::new_checked(packet).is_ok()
}

/// What follows the header of a packet, up to its total length: `smoltcp`'s `Ipv4Packet::payload`.
#[verifier::external_body]
pub(crate) fn payload(packet: &[u8]) -> (payload: &[u8])
    requires
        lengths_ok(packet@),
    ensures
        payload@ == packet@.subrange(header_len_field(packet@), total_len_field(packet@)),
{
    smoltcp::wire::Ipv4Packet::new_unchecked(packet).payload()
}

/// What a packet's header says, as far as the log shows it.
#[derive(Clone, Copy, Debug, PartialEq, Eq, Structural)]
pub struct Ipv4Repr {
    /// Where the packet comes from.
    pub src_addr: Ipv4Address,
    /// Where the packet goes.
    pub dst_addr: Ipv4Address,
    /// The number of the protocol that the payload is in.
    pub next_header: u8,
    /// The length of the payload.
    pub payload_len: usize,
    /// How many more hops the packet may take.
    pub hop_limit: u8,
}

/// Whether a packet is version 4, whole and not a fragment, with a right checksum.
pub open spec fn repr_ok(packet: Seq<u8>) -> bool {
    &&& lengths_ok(packet)
    &&& packet[0] / 16 == 4
    &&& header_checksum_ok(packet)
    &&& be16(packet, 6) % 0x4000 == 0
}

/// What the header of such a packet says.
pub open spec fn repr_of(packet: Seq<u8>) -> Ipv4Repr {
    Ipv4Repr {
        src_addr: Ipv4Address { bits: be32(packet, 12) as u32 },
        dst_addr: dst_addr_field(packet),
        next_header: packet[9],
        payload_len: (total_len_field(packet) - header_len_field(packet)) as usize,
        hop_limit: packet[8],
    }
}

/// Parses a packet's header: `smoltcp`'s `Ipv4Repr::parse` with every checksum looked at. It
/// refuses lengths that do not fit, another version, a wrong header checksum, and fragments.
#[verifier::external_body]
pub(crate) fn parse_repr(packet: &[u8]) -> (repr: Option<Ipv4Repr>)
    ensures
        repr == if repr_ok(packet@) {
            Some(repr_of(packet@))
        } else {
            None
        },
{
    let packet = smoltcp::wire::Ipv4Packet::new_unchecked(packet);
    let checksums = smoltcp::phy::ChecksumCapabilities::default();
    smoltcp::wire::Ipv4Repr::parse(&packet, &checksums).ok().map(|repr| Ipv4Repr {
        src_addr: Ipv4Address { bits: repr.src_addr.to_bits() },
        dst_addr: Ipv4Address { bits: repr.dst_addr.to_bits() },
        next_header: u8::from(repr.next_header),
        payload_len: repr.payload_len,
        hop_limit: repr.hop_limit,
    })
}

/// A subnet is a range of addresses: those from the first one with its leading bits on, as many as
/// the other bits can tell apart.
pub proof fn subnet_is_a_range(subnet: Ipv4Cidr, address: Ipv4Address)
    requires
        subnet.spec_prefix_len() <= 32,
    ensures
        ({
            let size = vstd::arithmetic::power2::pow2((32 - subnet.spec_prefix_len()) as nat) as int;
            let first = subnet.spec_address().bits as int - subnet.spec_address().bits as int
                % size;
            subnet.contains(address) <==> first <= address.bits < first + size
        }),
{
    let size = vstd::arithmetic::power2::pow2((32 - subnet.spec_prefix_len()) as nat) as int;
    let a = subnet.spec_address().bits as int;
    let b = address.bits as int;
    vstd::arithmetic::power2::lemma_pow2_pos((32 - subnet.spec_prefix_len()) as nat);
    assert(a / size == b / size <==> a - a % size <= b < a - a % size + size)
        by (nonlinear_arith)
        requires
            size > 0,
            a >= 0,
            b >= 0,
    {
        let q = a / size;
        let p = b / size;
        assert(a == q * size + a % size);
        assert(b == p * size + b % size);
        assert(0 <= a % size < size);
        assert(0 <= b % size < size);
        if p < q {
            assert((p + 1) * size <= q * size);
        }
        if p > q {
            assert((q + 1) * size <= p * size);
        }
    }
}

} // verus!
