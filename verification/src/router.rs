//! Decides which packets from the host belong on the bus, and answers for the addresses there.

use crate::channel::ChannelSender;
use crate::ipv4_packet_reconstructor::bus_frame;
use crate::wire::arp::{ArpOperation, ArpRepr, ArpView};
use crate::wire::bytes::le16_bytes;
use crate::wire::ethernet::EthernetAddress;
use crate::wire::ipv4;
use crate::wire::ipv4::{dst_addr_field, lengths_ok, Ipv4Address, Ipv4Cidr};
use vstd::prelude::*;

verus! {

/// Which addresses are on the bus.
#[derive(Clone, Copy, Debug)]
pub struct Ipv4Router {
    /// The gateway of the subnet, which is not on the bus.
    pub gateway_address: Ipv4Address,
    /// The subnet that the bus is.
    pub subnet: Ipv4Cidr,
    /// The address of this device.
    pub device_address: Ipv4Address,
}

impl Ipv4Router {
    /// Whether an address is one on the bus: in the subnet, and neither this device nor the
    /// gateway.
    pub open spec fn on_bus(self, address: Ipv4Address) -> bool {
        &&& self.subnet.contains(address)
        &&& address != self.device_address
        &&& address != self.gateway_address
    }

    /// Whether a packet goes to an address on the bus.
    pub fn is_ipv4_packet_valid_for_routing(&self, packet: &[u8]) -> (valid: bool)
        requires
            packet@.len() >= 20,
        ensures
            valid == self.on_bus(dst_addr_field(packet@)),
    {
        let dest_addr = ipv4::dst_addr(packet);
        self.subnet.contains_addr(&dest_addr) && dest_addr != self.device_address && dest_addr
            != self.gateway_address
    }
}

/// Stands between the host and the bus: answers for the addresses on the bus, under one simulated
/// hardware address, and sends the packets for them to the bus.
pub struct WrapperIbusRouter {
    /// Which addresses are on the bus.
    pub ipv4_router: Ipv4Router,
    /// The hardware address of this device.
    pub device_mac_address: EthernetAddress,
    /// The hardware address that all addresses on the bus are said to have.
    pub simulated_mac_address: EthernetAddress,
    /// The address of the host.
    pub pc_address: Ipv4Address,
    /// Where the packets for the bus go.
    pub sender_to_redirect_task: ChannelSender,
}

impl WrapperIbusRouter {
    /// Whether an ARP packet is answered for an address on the bus. Address discovery is left
    /// alone: packets without a sender's address, or about the sender's own, or about the host.
    pub open spec fn answers(self, repr: ArpView) -> bool {
        &&& repr.source_protocol_addr.bits != 0
        &&& repr.source_protocol_addr != repr.target_protocol_addr
        &&& self.ipv4_router.on_bus(repr.target_protocol_addr)
        &&& repr.target_protocol_addr != self.pc_address
    }

    /// The answer to an ARP packet: the address that is asked about has the simulated hardware
    /// address.
    pub open spec fn answer(self, repr: ArpView) -> ArpView {
        ArpView {
            operation: ArpOperation::Reply,
            source_hardware_addr: self.simulated_mac_address@,
            source_protocol_addr: repr.target_protocol_addr,
            target_hardware_addr: repr.source_hardware_addr,
            target_protocol_addr: repr.source_protocol_addr,
        }
    }

    /// Whether a packet from the host goes to the bus.
    pub open spec fn forwards(self, packet: Seq<u8>) -> bool {
        lengths_ok(packet) && self.ipv4_router.on_bus(dst_addr_field(packet))
    }

    /// The answer to an ARP packet, and the hardware address that it goes to, if it is answered
    /// for an address on the bus.
    pub fn intercept_arp_repr(&self, repr: &ArpRepr) -> (answer: Option<(ArpRepr, EthernetAddress)>)
        ensures
            match answer {
                Some((response, receiver)) => {
                    &&& self.answers(repr@)
                    &&& response@ == self.answer(repr@)
                    &&& receiver == repr.source_hardware_addr
                },
                None => !self.answers(repr@),
            },
    {
        if repr.source_protocol_addr.bits == 0 || repr.source_protocol_addr
            == repr.target_protocol_addr || repr.target_protocol_addr
            == self.ipv4_router.gateway_address || !self.ipv4_router.subnet.contains_addr(
            &repr.target_protocol_addr,
        ) || self.ipv4_router.device_address == repr.target_protocol_addr || self.pc_address
            == repr.target_protocol_addr {
            return None;
        }
        let response = ArpRepr {
            operation: ArpOperation::Reply,
            source_hardware_addr: self.simulated_mac_address,
            source_protocol_addr: repr.target_protocol_addr,
            target_hardware_addr: repr.source_hardware_addr,
            target_protocol_addr: repr.source_protocol_addr,
        };
        Some((response, repr.source_hardware_addr))
    }

    /// The packet that the payload of an IPv4 frame holds, if it goes to the bus.
    pub fn packet_for_bus(&self, payload: &[u8]) -> (packet: Option<Vec<u8>>)
        ensures
            match packet {
                Some(packet) => self.forwards(payload@) && packet@ == payload@,
                None => !self.forwards(payload@),
            },
    {
        if ipv4::new_checked(payload) && self.ipv4_router.is_ipv4_packet_valid_for_routing(payload) {
            Some(vstd::slice::slice_to_vec(payload))
        } else {
            None
        }
    }

    /// Sends a packet to the bus, followed by the low half of the checksum that was computed over
    /// it, and says whether the channel to the bus took it.
    pub fn intercept_ipv4_packet(&mut self, packet: Vec<u8>, crc: u32) -> (taken: bool)
        ensures
            final(self).sender_to_redirect_task.offered() == old(
                self,
            ).sender_to_redirect_task.offered().push(
                bus_frame(packet@, (crc % 0x1_0000) as u16),
            ),
            final(self).sender_to_redirect_task.taken() == if taken {
                old(self).sender_to_redirect_task.taken().push(
                    bus_frame(packet@, (crc % 0x1_0000) as u16),
                )
            } else {
                old(self).sender_to_redirect_task.taken()
            },
            final(self).ipv4_router == old(self).ipv4_router,
            final(self).device_mac_address == old(self).device_mac_address,
            final(self).simulated_mac_address == old(self).simulated_mac_address,
            final(self).pc_address == old(self).pc_address,
    {
        let low: u16 = (crc % 0x1_0000) as u16;
        let mut packet = packet;
        let ghost bytes = packet@;
        packet.push((low % 0x100) as u8);
        packet.push((low / 0x100) as u8);
        assert(packet@ =~= bytes + le16_bytes(low));
        self.sender_to_redirect_task.try_send(packet)
    }
}

/// Whoever was told the simulated hardware address for an address reaches that address on the bus:
/// every whole packet for it goes there.
pub proof fn answered_addresses_are_routed(
    router: WrapperIbusRouter,
    request: ArpView,
    packet: Seq<u8>,
)
    requires
        router.answers(request),
        lengths_ok(packet),
        dst_addr_field(packet) == request.target_protocol_addr,
    ensures
        router.forwards(packet),
        router.answer(request).source_protocol_addr == dst_addr_field(packet),
        router.answer(request).source_hardware_addr == router.simulated_mac_address@,
{
}

/// An address is on the bus if and only if it is in the subnet and belongs neither to this device
/// nor to the gateway, and a packet goes to the bus if and only if its lengths fit and its
/// destination, in the bytes from 16 to 19, is such an address, whatever else it holds.
pub proof fn packets_for_bus_addresses_are_forwarded(router: WrapperIbusRouter, packet: Seq<u8>)
    requires
        packet.len() >= 20,
        packet[0] % 16 * 4 <= packet[2] * 256 + packet[3] <= packet.len(),
    ensures
        ({
            let bits = packet[16] * 0x100_0000 + packet[17] * 0x1_0000 + packet[18] * 0x100
                + packet[19];
            let destination = Ipv4Address { bits: bits as u32 };
            &&& router.forwards(packet) <==> {
                &&& router.ipv4_router.subnet.contains(destination)
                &&& bits != router.ipv4_router.device_address.bits
                &&& bits != router.ipv4_router.gateway_address.bits
            }
            &&& router.ipv4_router.on_bus(destination) <==> router.forwards(packet)
        }),
{
}

/// A packet that is shorter than its header, or than it says, or that holds no header, does not go
/// to the bus.
pub proof fn broken_packets_are_not_forwarded(router: WrapperIbusRouter, packet: Seq<u8>)
    requires
        packet.len() < 20 || packet[0] % 16 * 4 > packet[2] * 256 + packet[3] || packet[2] * 256
            + packet[3] > packet.len(),
    ensures
        !router.forwards(packet),
{
}

/// An ARP packet is answered if and only if it is about an address in the subnet of the bus other
/// than this device, the gateway and the host, and comes from another address than that and from
/// any at all: whoever asks, wherever they are, and whatever else the packet says. The answer is a
/// reply from the simulated hardware address for that address, to who asked.
pub proof fn questions_about_bus_addresses_are_answered(router: WrapperIbusRouter, repr: ArpView)
    ensures
        ({
            let asker = repr.source_protocol_addr.bits;
            let asked = repr.target_protocol_addr.bits;
            router.answers(repr) <==> {
                &&& asker != 0
                &&& asker != asked
                &&& router.ipv4_router.subnet.contains(Ipv4Address { bits: asked })
                &&& asked != router.ipv4_router.device_address.bits
                &&& asked != router.ipv4_router.gateway_address.bits
                &&& asked != router.pc_address.bits
            }
        }),
        router.answer(repr).operation == ArpOperation::Reply,
        router.answer(repr).source_hardware_addr == router.simulated_mac_address@,
        router.answer(repr).source_protocol_addr == repr.target_protocol_addr,
        router.answer(repr).target_hardware_addr == repr.source_hardware_addr,
        router.answer(repr).target_protocol_addr == repr.source_protocol_addr,
{
}

} // verus!
