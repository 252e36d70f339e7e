//! What the log says of a packet.

use crate::wire::ipv4;
use crate::wire::ipv4::{
    header_len_field, lengths_ok, repr_of, repr_ok, total_len_field, Ipv4Repr,
};
use crate::wire::udp;
use crate::wire::udp::{dst_port_field, src_port_field, udp_ok};
use vstd::prelude::*;

verus! {

/// The ports of a UDP datagram.
#[derive(Clone, Copy, Debug, PartialEq, Eq, Structural)]
pub struct UdpPorts {
    /// The port that the datagram comes from.
    pub src_port: u16,
    /// The port that the datagram goes to.
    pub dst_port: u16,
}

/// What the log says of a packet.
#[derive(Clone, Copy, Debug, PartialEq, Eq)]
pub enum PacketLog {
    /// The lengths in the header do not fit.
    ParseFailed,
    /// The header is not one that this device understands.
    NotAPacket,
    /// What the header says, and the ports if the packet holds a UDP datagram.
    Packet(Ipv4Repr, Option<UdpPorts>),
}

/// What the packet carries after its header.
pub open spec fn ipv4_payload(packet: Seq<u8>) -> Seq<u8> {
    packet.subrange(header_len_field(packet), total_len_field(packet))
}

/// The ports in a datagram, if its lengths fit.
pub open spec fn ports_of(datagram: Seq<u8>) -> Option<UdpPorts> {
    if udp_ok(datagram) {
        Some(
            UdpPorts {
                src_port: src_port_field(datagram) as u16,
                dst_port: dst_port_field(datagram) as u16,
            },
        )
    } else {
        None
    }
}

/// What there is to say of a packet.
pub fn log_packet(receive_ipv4_packet: &[u8]) -> (log: PacketLog)
    ensures
        log == if !lengths_ok(receive_ipv4_packet@) {
            PacketLog::ParseFailed
        } else if !repr_ok(receive_ipv4_packet@) {
            PacketLog::NotAPacket
        } else {
            PacketLog::Packet(
                repr_of(receive_ipv4_packet@),
                ports_of(ipv4_payload(receive_ipv4_packet@)),
            )
        },
{
    if !ipv4::new_checked(receive_ipv4_packet) {
        return PacketLog::ParseFailed;
    }
    let repr = match ipv4::parse_repr(receive_ipv4_packet) {
        Some(repr) => repr,
        None => {
            return PacketLog::NotAPacket;
        },
    };
    let datagram = ipv4::payload(receive_ipv4_packet);
    let ports = if udp::new_checked(datagram) {
        Some(UdpPorts { src_port: udp::src_port(datagram), dst_port: udp::dst_port(datagram) })
    } else {
        None
    };
    PacketLog::Packet(repr, ports)
}

/// The log shows the ports of every packet in which a UDP header and its length fit, whatever the
/// protocol, and of no other.
pub proof fn ports_are_shown(packet: Seq<u8>)
    requires
        packet.len() >= 20,
        packet[0] % 16 * 4 <= packet[2] * 256 + packet[3] <= packet.len(),
    ensures
        ({
            let start = packet[0] % 16 * 4;
            let len = packet[2] * 256 + packet[3] - start;
            let udp_len = packet[start + 4] * 256 + packet[start + 5];
            match ports_of(ipv4_payload(packet)) {
                Some(ports) => {
                    &&& 8 <= udp_len <= len
                    &&& ports.src_port == packet[start] * 256 + packet[start + 1]
                    &&& ports.dst_port == packet[start + 2] * 256 + packet[start + 3]
                },
                None => len < 8 || !(8 <= udp_len <= len),
            }
        }),
{
    let start = packet[0] % 16 * 4;
    let datagram = ipv4_payload(packet);
    if datagram.len() >= 8 {
        assert(datagram[0] == packet[start] && datagram[1] == packet[start + 1]);
        assert(datagram[2] == packet[start + 2] && datagram[3] == packet[start + 3]);
        assert(datagram[4] == packet[start + 4] && datagram[5] == packet[start + 5]);
    }
}

/// What the log shows of a header stands in it: the addresses, the protocol, the hops and the
/// length of the payload. It is shown of whole packets of version 4 with a right header checksum
/// that are no fragments.
pub proof fn header_is_shown(packet: Seq<u8>)
    requires
        packet.len() >= 20,
        packet[0] % 16 * 4 <= packet[2] * 256 + packet[3] <= packet.len(),
    ensures
        lengths_ok(packet),
        repr_ok(packet) <==> {
            let sum = crate::wire::ipv4::word_sum(packet.take(packet[0] % 16 * 4));
            &&& packet[0] / 16 == 4
            &&& sum > 0
            &&& sum % 0xffff == 0
            &&& packet[6] % 64 == 0
            &&& packet[7] == 0
        },
        ({
            let repr = repr_of(packet);
            &&& repr.src_addr.bits == packet[12] * 0x100_0000 + packet[13] * 0x1_0000 + packet[14]
                * 0x100 + packet[15]
            &&& repr.dst_addr.bits == packet[16] * 0x100_0000 + packet[17] * 0x1_0000 + packet[18]
                * 0x100 + packet[19]
            &&& repr.next_header == packet[9]
            &&& repr.hop_limit == packet[8]
            &&& repr.payload_len == packet[2] * 256 + packet[3] - packet[0] % 16 * 4
        }),
{
}

} // verus!
