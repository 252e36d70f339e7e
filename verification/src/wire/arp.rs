//! ARP packets that ask for the hardware address of an IPv4 address.

use crate::wire::bytes::{be16, be16_bytes, be32, be32_bytes};
use crate::wire::ethernet::{EthernetAddress, ETHERTYPE_IPV4};
use crate::wire::ipv4::Ipv4Address;
use vstd::prelude::*;

verus! {

/// What an ARP packet is for.
#[derive(Clone, Copy, Debug, PartialEq, Eq, Structural)]
pub enum ArpOperation {
    /// It asks for a hardware address.
    Request,
    /// It answers such a question.
    Reply,
    /// Anything else.
    Unknown(u16),
}

/// An ARP packet for Ethernet and IPv4.
#[derive(Clone, Copy, Debug, PartialEq, Eq)]
pub struct ArpRepr {
    /// What the packet is for.
    pub operation: ArpOperation,
    /// The hardware address of the sender.
    pub source_hardware_addr: EthernetAddress,
    /// The IPv4 address of the sender.
    pub source_protocol_addr: Ipv4Address,
    /// The hardware address of the receiver.
    pub target_hardware_addr: EthernetAddress,
    /// The IPv4 address of the receiver: in a request, the one that is asked about.
    pub target_protocol_addr: Ipv4Address,
}

/// What an ARP packet for Ethernet and IPv4 says, hardware addresses as their bytes.
pub struct ArpView {
    /// What the packet is for.
    pub operation: ArpOperation,
    /// The hardware address of the sender.
    pub source_hardware_addr: Seq<u8>,
    /// The IPv4 address of the sender.
    pub source_protocol_addr: Ipv4Address,
    /// The hardware address of the receiver.
    pub target_hardware_addr: Seq<u8>,
    /// The IPv4 address of the receiver.
    pub target_protocol_addr: Ipv4Address,
}

impl View for ArpRepr {
    type V = ArpView;

    open spec fn view(&self) -> ArpView {
        ArpView {
            operation: self.operation,
            source_hardware_addr: self.source_hardware_addr@,
            source_protocol_addr: self.source_protocol_addr,
            target_hardware_addr: self.target_hardware_addr@,
            target_protocol_addr: self.target_protocol_addr,
        }
    }
}

/// The number that stands for an operation in a packet.
pub open spec fn operation_code(operation: ArpOperation) -> u16 {
    match operation {
        ArpOperation::Request => 1,
        ArpOperation::Reply => 2,
        ArpOperation::Unknown(code) => code,
    }
}

/// The operation that a number in a packet stands for.
pub open spec fn operation_of(code: int) -> ArpOperation {
    if code == 1 {
        ArpOperation::Request
    } else if code == 2 {
        ArpOperation::Reply
    } else {
        ArpOperation::Unknown(code as u16)
    }
}

/// The length of an ARP packet for Ethernet and IPv4.
pub const ARP_LEN: usize = 28;

/// Whether a packet is as long as the address lengths in it say.
pub open spec fn arp_len_ok(packet: Seq<u8>) -> bool {
    packet.len() >= 8 && packet.len() >= 8 + 2 * packet[4] + 2 * packet[5]
}

/// Whether a packet is a whole ARP packet for Ethernet and IPv4.
pub open spec fn arp_ok(packet: Seq<u8>) -> bool {
    &&& arp_len_ok(packet)
    &&& be16(packet, 0) == 1
    &&& be16(packet, 2) == ETHERTYPE_IPV4
    &&& packet[4] == 6
    &&& packet[5] == 4
}

/// What an ARP packet for Ethernet and IPv4 says.
pub open spec fn arp_fields(packet: Seq<u8>) -> ArpView {
    ArpView {
        operation: operation_of(be16(packet, 6)),
        source_hardware_addr: packet.subrange(8, 14),
        source_protocol_addr: Ipv4Address { bits: be32(packet, 14) as u32 },
        target_hardware_addr: packet.subrange(18, 24),
        target_protocol_addr: Ipv4Address { bits: be32(packet, 24) as u32 },
    }
}

/// The bytes of a packet.
pub open spec fn arp_bytes(repr: ArpView) -> Seq<u8> {
    be16_bytes(1) + be16_bytes(ETHERTYPE_IPV4) + seq![6u8, 4u8] + be16_bytes(
        operation_code(repr.operation),
    ) + repr.source_hardware_addr + be32_bytes(repr.source_protocol_addr.bits)
        + repr.target_hardware_addr + be32_bytes(repr.target_protocol_addr.bits)
}

/// The fields of a packet: operation, source hardware and IPv4 address, target hardware and IPv4
/// address.
pub(crate) type ArpFields = (u16, [u8; 6], u32, [u8; 6], u32);

/// Parses a packet: `smoltcp`'s `ArpRepr::parse`, which takes whole packets for Ethernet and IPv4
/// and no others, and hands out their fields.
#[verifier::external_body]
fn parse_fields(packet: &[u8]) -> (fields: Option<ArpFields>)
    ensures
        fields is Some <==> arp_ok(packet@),
        fields matches Some(fields) ==> {
            &&& fields.0 == be16(packet@, 6)
            &&& fields.1@ == packet@.subrange(8, 14)
            &&& fields.2 == be32(packet@, 14)
            &&& fields.3@ == packet@.subrange(18, 24)
            &&& fields.4 == be32(packet@, 24)
        },
{
    match smoltcp::wire::ArpRepr::parse(&smoltcp::wire::ArpPacket::new_unchecked(packet)) {
        Ok(smoltcp::wire::ArpRepr::EthernetIpv4 {
            operation,
            source_hardware_addr: sha,
            source_protocol_addr: spa,
            target_hardware_addr: tha,
            target_protocol_addr: tpa,
        }) => Some((u16::from(operation), sha.0, spa.to_bits(), tha.0, tpa.to_bits())),
        _ => None,
    }
}

/// Writes a packet: `smoltcp`'s `ArpRepr::emit`, which fills the first 28 bytes of the buffer.
#[verifier::external_body]
fn emit_fields(fields: ArpFields, buffer: &mut Vec<u8>)
    requires
        old(buffer)@.len() >= ARP_LEN,
    ensures
        final(buffer)@ == be16_bytes(1) + be16_bytes(ETHERTYPE_IPV4) + seq![6u8, 4u8] + be16_bytes(
            fields.0,
        ) + fields.1@ + be32_bytes(fields.2) + fields.3@ + be32_bytes(fields.4) + old(buffer)@.skip(
            ARP_LEN as int,
        ),
{
    let repr = smoltcp::wire::ArpRepr::EthernetIpv4 {
        operation: smoltcp::wire::ArpOperation::from(fields.0),
        source_hardware_addr: smoltcp::wire::EthernetAddress(fields.1),
        source_protocol_addr: smoltcp::wire::Ipv4Address::from_bits(fields.2),
        target_hardware_addr: smoltcp::wire::EthernetAddress(fields.3),
        target_protocol_addr: smoltcp::wire::Ipv4Address::from_bits(fields.4),
    };
    repr.emit(&mut smoltcp::wire::ArpPacket::new_unchecked(buffer.as_mut_slice()))
}

/// Parses a packet, if it is a whole ARP packet for Ethernet and IPv4.
pub fn parse(packet: &[u8]) -> (repr: Option<ArpRepr>)
    ensures
        repr is Some <==> arp_ok(packet@),
        repr matches Some(repr) ==> repr@ == arp_fields(packet@),
{
    match parse_fields(packet) {
        Some((code, source_hardware, source_bits, target_hardware, target_bits)) => {
            let operation = if code == 1 {
                ArpOperation::Request
            } else if code == 2 {
                ArpOperation::Reply
            } else {
                ArpOperation::Unknown(code)
            };
            Some(
                ArpRepr {
                    operation,
                    source_hardware_addr: EthernetAddress(source_hardware),
                    source_protocol_addr: Ipv4Address { bits: source_bits },
                    target_hardware_addr: EthernetAddress(target_hardware),
                    target_protocol_addr: Ipv4Address { bits: target_bits },
                },
            )
        },
        None => None,
    }
}

/// The bytes of a packet.
pub fn emit(repr: &ArpRepr) -> (packet: Vec<u8>)
    ensures
        packet@ == arp_bytes(repr@),
{
    let code: u16 = match repr.operation {
        ArpOperation::Request => 1,
        ArpOperation::Reply => 2,
        ArpOperation::Unknown(code) => code,
    };
    let fields = (
        code,
        repr.source_hardware_addr.0,
        repr.source_protocol_addr.bits,
        repr.target_hardware_addr.0,
        repr.target_protocol_addr.bits,
    );
    let mut packet: Vec<u8> = vec![0; ARP_LEN];
    emit_fields(fields, &mut packet);
    proof {
        assert(packet@ =~= arp_bytes(repr@));
    }
    packet
}

/// What is written is read back: the bytes of a packet are a whole ARP packet, and they say what
/// was written, where an operation that has a name is given by it.
pub proof fn emitted_packet_parses_back(repr: ArpView)
    requires
        repr.source_hardware_addr.len() == 6,
        repr.target_hardware_addr.len() == 6,
        repr.operation matches ArpOperation::Unknown(code) ==> code != 1 && code != 2,
    ensures
        arp_bytes(repr).len() == ARP_LEN,
        arp_ok(arp_bytes(repr)),
        arp_fields(arp_bytes(repr)) == repr,
{
    let bytes = arp_bytes(repr);
    assert(bytes.subrange(8, 14) =~= repr.source_hardware_addr);
    assert(bytes.subrange(18, 24) =~= repr.target_hardware_addr);
}

/// Where the fields of a packet stand: the operation in the bytes 6 and 7, then the hardware and the
/// IPv4 address of the sender, then those of the receiver. It is the same for writing and reading.
pub proof fn packet_layout(repr: ArpView, packet: Seq<u8>)
    requires
        repr.source_hardware_addr.len() == 6,
        repr.target_hardware_addr.len() == 6,
        packet.len() >= 28,
    ensures
        ({
            let bytes = arp_bytes(repr);
            &&& bytes.len() == 28
            &&& bytes.take(6) == seq![0u8, 1, 8, 0, 6, 4]
            &&& bytes[6] * 256 + bytes[7] == match repr.operation {
                ArpOperation::Request => 1,
                ArpOperation::Reply => 2,
                ArpOperation::Unknown(code) => code as int,
            }
            &&& bytes.subrange(8, 14) == repr.source_hardware_addr
            &&& be32(bytes, 14) == repr.source_protocol_addr.bits
            &&& bytes.subrange(18, 24) == repr.target_hardware_addr
            &&& be32(bytes, 24) == repr.target_protocol_addr.bits
        }),
        ({
            let fields = arp_fields(packet);
            let code = packet[6] * 256 + packet[7];
            &&& match fields.operation {
                ArpOperation::Request => code == 1,
                ArpOperation::Reply => code == 2,
                ArpOperation::Unknown(other) => code == other && code != 1 && code != 2,
            }
            &&& fields.source_hardware_addr == packet.subrange(8, 14)
            &&& fields.source_protocol_addr.bits == be32(packet, 14)
            &&& fields.target_hardware_addr == packet.subrange(18, 24)
            &&& fields.target_protocol_addr.bits == be32(packet, 24)
            &&& arp_ok(packet) <==> packet.take(6) == seq![0u8, 1, 8, 0, 6, 4]
        }),
{
    let bytes = arp_bytes(repr);
    assert(bytes.take(6) =~= seq![0u8, 1, 8, 0, 6, 4]);
    assert(bytes.subrange(8, 14) =~= repr.source_hardware_addr);
    assert(bytes.subrange(18, 24) =~= repr.target_hardware_addr);
    let start = packet.take(6);
    assert(forall|i: int| 0 <= i < 6 ==> #[trigger] start[i] == packet[i]);
    if start == seq![0u8, 1, 8, 0, 6, 4] {
        assert(start[0] == 0 && start[1] == 1 && start[2] == 8 && start[3] == 0 && start[4] == 6
            && start[5] == 4);
        assert(arp_ok(packet));
    }
    if arp_ok(packet) {
        assert(start =~= seq![0u8, 1, 8, 0, 6, 4]);
    }
}

} // verus!
