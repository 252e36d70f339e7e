//! Decides what becomes of each frame that comes in from the host.

use crate::channel::ChannelSender;
use crate::router::{Ipv4Router, WrapperIbusRouter};
use crate::wire::arp;
use crate::wire::arp::{arp_bytes, arp_fields, arp_ok, ArpOperation, ArpView};
use crate::wire::bytes::{be16, be32, be32_bytes};
use crate::wire::ethernet;
use crate::wire::ethernet::{
    ethernet_frame, ethertype_field, frame_bytes, frame_ok, frame_payload, EthernetAddress,
    ETHERTYPE_ARP, ETHERTYPE_IPV4,
};
use crate::wire::ipv4::Ipv4Address;
use vstd::prelude::*;

verus! {

/// What becomes of a frame from the host.
#[derive(Debug, PartialEq, Eq)]
pub enum DriverResult {
    /// No frame came in.
    Nothing,
    /// The frame goes on to the network stack of this device.
    Token,
    /// The frame was answered for an address on the bus: this frame goes back to the host, and the
    /// driver looks for another frame.
    Retry(Vec<u8>),
    /// The frame goes on to the network stack of this device, after this packet in it has been
    /// sent to the bus.
    Route(Vec<u8>),
}

/// What becomes of a frame from the host, as a mathematical value.
pub enum Outcome {
    /// No frame came in.
    Nothing,
    /// The frame goes on.
    Token,
    /// The frame was answered.
    Retry(Seq<u8>),
    /// The frame goes on, and a packet in it goes to the bus.
    Route(Seq<u8>),
}

impl View for DriverResult {
    type V = Outcome;

    open spec fn view(&self) -> Outcome {
        match self {
            DriverResult::Nothing => Outcome::Nothing,
            DriverResult::Token => Outcome::Token,
            DriverResult::Retry(reply) => Outcome::Retry(reply@),
            DriverResult::Route(packet) => Outcome::Route(packet@),
        }
    }
}

/// Whether a frame is not an ARP frame, or holds an ARP packet that can be parsed.
pub open spec fn parses(frame: Seq<u8>) -> bool {
    frame_ok(frame) && ethertype_field(frame) == ETHERTYPE_ARP ==> arp_ok(frame_payload(frame))
}

/// Whether a frame is not an ARP frame, or holds an ARP packet that can be parsed.
pub fn frame_parses(frame: &[u8]) -> (yes: bool)
    ensures
        yes == parses(frame@),
{
    if ethernet::new_checked(frame) && ethernet::ethertype(frame) == ETHERTYPE_ARP {
        arp::parse(ethernet::payload(frame)).is_some()
    } else {
        true
    }
}

/// Looks at the frames from the host before the network stack of this device does.
pub struct WrapperDriver {
    /// What knows the bus.
    pub router: WrapperIbusRouter,
}

impl WrapperDriver {
    /// The frame that answers an ARP request.
    pub open spec fn reply_frame(self, request: ArpView) -> Seq<u8> {
        frame_bytes(
            request.source_hardware_addr,
            self.router.simulated_mac_address@,
            ETHERTYPE_ARP,
            arp_bytes(self.router.answer(request)),
        )
    }

    /// What becomes of a frame. ARP requests for addresses on the bus are answered, packets for
    /// addresses on the bus are sent there, and all but the answered frames go on.
    pub open spec fn outcome(self, frame: Seq<u8>) -> Outcome {
        let payload = frame_payload(frame);
        if frame_ok(frame) && ethertype_field(frame) == ETHERTYPE_ARP {
            let request = arp_fields(payload);
            if request.operation == ArpOperation::Request && self.router.answers(request) {
                Outcome::Retry(self.reply_frame(request))
            } else {
                Outcome::Token
            }
        } else if frame_ok(frame) && ethertype_field(frame) == ETHERTYPE_IPV4
            && self.router.forwards(payload) {
            Outcome::Route(payload)
        } else {
            Outcome::Token
        }
    }

    /// A driver that answers for the addresses on the bus with `magic_mac`.
    pub fn new(
        expected_mac: EthernetAddress,
        magic_mac: EthernetAddress,
        sender_to_redirect_task: ChannelSender,
        test_pc_address: Ipv4Address,
        router: &Ipv4Router,
    ) -> (driver: Self)
        ensures
            driver.router.ipv4_router == *router,
            driver.router.device_mac_address == expected_mac,
            driver.router.simulated_mac_address == magic_mac,
            driver.router.pc_address == test_pc_address,
            driver.router.sender_to_redirect_task == sender_to_redirect_task,
    {
        Self {
            router: WrapperIbusRouter {
                ipv4_router: *router,
                device_mac_address: expected_mac,
                simulated_mac_address: magic_mac,
                pc_address: test_pc_address,
                sender_to_redirect_task,
            },
        }
    }

    /// Decides what becomes of a frame, if one came in.
    pub fn do_read_poll(&self, packet: Option<&[u8]>) -> (result: DriverResult)
        requires
            packet matches Some(frame) ==> parses(frame@),
        ensures
            result@ == match packet {
                Some(frame) => self.outcome(frame@),
                None => Outcome::Nothing,
            },
    {
        let frame = match packet {
            Some(frame) => frame,
            None => {
                return DriverResult::Nothing;
            },
        };
        if !ethernet::new_checked(frame) {
            return DriverResult::Token;
        }
        let ethertype: u16 = ethernet::ethertype(frame);
        let payload = ethernet::payload(frame);
        if ethertype == ETHERTYPE_ARP {
            if let Some(request) = arp::parse(payload) {
                if request.operation != ArpOperation::Request {
                    return DriverResult::Token;
                }
                if let Some((response, to)) = self.router.intercept_arp_repr(&request) {
                    let reply = arp::emit(&response);
                    let reply_frame = ethernet_frame(
                        to,
                        self.router.simulated_mac_address,
                        ETHERTYPE_ARP,
                        reply.as_slice(),
                    );
                    return DriverResult::Retry(reply_frame);
                }
            }
            DriverResult::Token
        } else if ethertype == ETHERTYPE_IPV4 {
            match self.router.packet_for_bus(payload) {
                Some(packet) => DriverResult::Route(packet),
                None => DriverResult::Token,
            }
        } else {
            DriverResult::Token
        }
    }
}

/// The frame that answers an ARP request is an ARP reply to whoever asked, from the simulated
/// hardware address, that says what was asked for; and it is not itself answered.
pub proof fn reply_frame_answers_the_request(driver: WrapperDriver, request: ArpView)
    requires
        request.source_hardware_addr.len() == 6,
        driver.router.answers(request),
    ensures
        ({
            let reply = driver.reply_frame(request);
            &&& parses(reply)
            &&& reply.take(6) == request.source_hardware_addr
            &&& reply.subrange(6, 12) == driver.router.simulated_mac_address@
            &&& ethertype_field(reply) == ETHERTYPE_ARP
            &&& arp_ok(frame_payload(reply))
            &&& arp_fields(frame_payload(reply)) == driver.router.answer(request)
            &&& driver.outcome(reply) is Token
        }),
{
    let answer = driver.router.answer(request);
    let reply = driver.reply_frame(request);
    arp::emitted_packet_parses_back(answer);
    ethernet::frame_carries_payload(
        request.source_hardware_addr,
        driver.router.simulated_mac_address@,
        ETHERTYPE_ARP,
        arp_bytes(answer),
    );
    assert(reply.take(6) =~= request.source_hardware_addr);
    assert(reply.subrange(6, 12) =~= driver.router.simulated_mac_address@);
}

/// This device, the gateway and the host are never answered for, and neither is an address outside
/// the subnet of the bus: frames that ask about them go on unchanged.
pub proof fn other_addresses_are_not_answered(driver: WrapperDriver, frame: Seq<u8>)
    requires
        frame_ok(frame),
        ethertype_field(frame) == ETHERTYPE_ARP,
        ({
            let asked = arp_fields(frame_payload(frame)).target_protocol_addr;
            ||| asked == driver.router.ipv4_router.device_address
            ||| asked == driver.router.ipv4_router.gateway_address
            ||| asked == driver.router.pc_address
            ||| !driver.router.ipv4_router.subnet.contains(asked)
        }),
    ensures
        driver.outcome(frame) is Token,
{
}

/// A frame that is sent to the bus holds a packet for the bus, which is sent whole; and the same
/// frame goes on to the network stack, since it was not answered.
pub proof fn routed_packet_is_the_payload(driver: WrapperDriver, frame: Seq<u8>)
    ensures
        driver.outcome(frame) matches Outcome::Route(packet) ==> packet == frame_payload(frame)
            && driver.router.forwards(packet),
        driver.outcome(frame) is Retry ==> ethertype_field(frame) == ETHERTYPE_ARP,
        frame_ok(frame) && ethertype_field(frame) == ETHERTYPE_IPV4 && driver.router.forwards(
            frame_payload(frame),
        ) ==> driver.outcome(frame) == Outcome::Route(frame_payload(frame)),
{
}

/// The four bytes of a number are those that it was read from.
proof fn address_bytes_come_back(bytes: Seq<u8>, at: int)
    requires
        0 <= at,
        at + 4 <= bytes.len(),
    ensures
        0 <= be32(bytes, at) <= u32::MAX,
        be32_bytes(be32(bytes, at) as u32) == bytes.subrange(at, at + 4),
{
    let high = be16(bytes, at);
    let low = be16(bytes, at + 2);
    let value = be32(bytes, at) as u32;
    assert(value == high * 0x1_0000 + low);
    assert(value / 0x1_0000 == high);
    assert(value % 0x1_0000 == low);
    assert(be32_bytes(value) =~= bytes.subrange(at, at + 4));
}

/// Every ARP request for an address in the subnet of the bus other than this device, the gateway
/// and the host is answered, whoever asks, unless who asks has no address or asks about their own.
/// The answer is a frame to the hardware address that asked, from the simulated one, that says that
/// the address that was asked about is there.
pub proof fn request_for_a_bus_address_is_answered(driver: WrapperDriver, frame: Seq<u8>)
    requires
        frame.len() >= 42,
        frame.subrange(12, 22) == seq![8u8, 6, 0, 1, 8, 0, 6, 4, 0, 1],
        ({
            let asker = be32(frame, 28);
            let asked = be32(frame, 38);
            &&& asker != 0
            &&& asker != asked
            &&& driver.router.ipv4_router.subnet.contains(Ipv4Address { bits: asked as u32 })
            &&& asked != driver.router.ipv4_router.device_address.bits
            &&& asked != driver.router.ipv4_router.gateway_address.bits
            &&& asked != driver.router.pc_address.bits
        }),
    ensures
        parses(frame),
        driver.outcome(frame) == Outcome::Retry(
            frame.subrange(22, 28) + driver.router.simulated_mac_address@
                + seq![8u8, 6, 0, 1, 8, 0, 6, 4, 0, 2] + driver.router.simulated_mac_address@
                + frame.subrange(38, 42) + frame.subrange(22, 28) + frame.subrange(28, 32),
        ),
{
    let payload = frame.skip(14);
    let start = frame.subrange(12, 22);
    assert(forall|i: int| 0 <= i < 10 ==> #[trigger] start[i] == frame[12 + i]);
    assert(start[0] == 8 && start[1] == 6 && start[2] == 0 && start[3] == 1 && start[4] == 8
        && start[5] == 0 && start[6] == 6 && start[7] == 4 && start[8] == 0 && start[9] == 1);
    assert(payload[4] == 6 && payload[5] == 4);
    assert(arp_ok(payload));
    let request = arp_fields(payload);
    assert(request.source_hardware_addr =~= frame.subrange(22, 28));
    address_bytes_come_back(frame, 28);
    address_bytes_come_back(frame, 38);
    assert(be32(payload, 14) == be32(frame, 28));
    assert(be32(payload, 24) == be32(frame, 38));
    assert(driver.reply_frame(request) =~= frame.subrange(22, 28)
        + driver.router.simulated_mac_address@ + seq![8u8, 6, 0, 1, 8, 0, 6, 4, 0, 2]
        + driver.router.simulated_mac_address@ + frame.subrange(38, 42) + frame.subrange(22, 28)
        + frame.subrange(28, 32));
}

/// Every IPv4 frame with a packet whose lengths fit and whose destination is in the subnet of the
/// bus, and is neither this device nor the gateway, is routed: the packet goes to the bus, whatever
/// its protocol and its payload, whoever it comes from and whichever hardware addresses the frame
/// has.
pub proof fn packet_for_a_bus_address_is_routed(driver: WrapperDriver, frame: Seq<u8>)
    requires
        frame.len() >= 34,
        frame[12] == 8,
        frame[13] == 0,
        frame[14] % 16 * 4 <= frame[16] * 256 + frame[17] <= frame.len() - 14,
        ({
            let destination = be32(frame, 30);
            &&& driver.router.ipv4_router.subnet.contains(Ipv4Address { bits: destination as u32 })
            &&& destination != driver.router.ipv4_router.device_address.bits
            &&& destination != driver.router.ipv4_router.gateway_address.bits
        }),
    ensures
        parses(frame),
        driver.outcome(frame) == Outcome::Route(frame.skip(14)),
{
    let payload = frame.skip(14);
    assert(be32(payload, 16) == be32(frame, 30));
}

/// All other frames go on as they are: what is answered is an ARP request for an address on the
/// bus, and what is routed is an IPv4 frame with a packet for one.
pub proof fn other_frames_go_on(driver: WrapperDriver, frame: Seq<u8>)
    requires
        parses(frame),
    ensures
        match driver.outcome(frame) {
            Outcome::Nothing => false,
            Outcome::Token => true,
            Outcome::Retry(_) => {
                let asker = be32(frame, 28);
                let asked = be32(frame, 38);
                &&& frame.len() >= 42
                &&& frame.subrange(12, 22) == seq![8u8, 6, 0, 1, 8, 0, 6, 4, 0, 1]
                &&& asker != 0
                &&& asker != asked
                &&& driver.router.ipv4_router.subnet.contains(Ipv4Address { bits: asked as u32 })
                &&& asked != driver.router.ipv4_router.device_address.bits
                &&& asked != driver.router.ipv4_router.gateway_address.bits
                &&& asked != driver.router.pc_address.bits
            },
            Outcome::Route(packet) => {
                let destination = be32(frame, 30);
                &&& frame.len() >= 34
                &&& frame[12] == 8
                &&& frame[13] == 0
                &&& frame[14] % 16 * 4 <= frame[16] * 256 + frame[17] <= frame.len() - 14
                &&& driver.router.ipv4_router.subnet.contains(
                    Ipv4Address { bits: destination as u32 },
                )
                &&& destination != driver.router.ipv4_router.device_address.bits
                &&& destination != driver.router.ipv4_router.gateway_address.bits
                &&& packet == frame.skip(14)
            },
        },
{
    let payload = frame.skip(14);
    if driver.outcome(frame) is Retry {
        assert(payload[4] == 6 && payload[5] == 4);
        assert(payload.len() >= 28);
        address_bytes_come_back(frame, 28);
        address_bytes_come_back(frame, 38);
        assert(be32(payload, 14) == be32(frame, 28));
        assert(be32(payload, 24) == be32(frame, 38));
        assert(be16(payload, 0) == 1 && be16(payload, 2) == 0x0800 && be16(payload, 6) == 1);
        assert(be16(frame, 12) == 0x0806);
        assert(frame[14] == payload[0] && frame[15] == payload[1] && frame[16] == payload[2]
            && frame[17] == payload[3] && frame[20] == payload[6] && frame[21] == payload[7]);
        assert(frame.subrange(12, 22) =~= seq![8u8, 6, 0, 1, 8, 0, 6, 4, 0, 1]);
    } else if driver.outcome(frame) is Route {
        address_bytes_come_back(frame, 30);
        assert(be32(payload, 16) == be32(frame, 30));
    }
}

/// Every frame can be looked at but an ARP frame that is cut short or is not for Ethernet and IPv4.
pub proof fn frames_that_can_be_looked_at(frame: Seq<u8>)
    ensures
        frame.len() < 14 || frame[12] != 8 || frame[13] != 6 ==> parses(frame),
        frame.len() >= 42 && frame.subrange(12, 20) == seq![8u8, 6, 0, 1, 8, 0, 6, 4] ==> parses(
            frame,
        ),
        frame.len() >= 14 && frame[12] == 8 && frame[13] == 6 && parses(frame) ==> frame.len()
            >= 42 && frame.subrange(12, 20) == seq![8u8, 6, 0, 1, 8, 0, 6, 4],
{
    let payload = frame.skip(14);
    let start = frame.subrange(12, 20);
    if frame.len() >= 42 && start == seq![8u8, 6, 0, 1, 8, 0, 6, 4] {
        assert(forall|i: int| 0 <= i < 8 ==> #[trigger] start[i] == frame[12 + i]);
        assert(start[2] == 0 && start[3] == 1 && start[4] == 8 && start[5] == 0 && start[6] == 6
            && start[7] == 4);
        assert(payload[4] == 6 && payload[5] == 4);
        assert(arp_ok(payload));
    }
    if frame.len() >= 14 && frame[12] == 8 && frame[13] == 6 && parses(frame) {
        assert(be16(payload, 0) == 1 && be16(payload, 2) == 0x0800);
        assert(payload[4] == 6 && payload[5] == 4);
        assert(frame[14] == payload[0] && frame[15] == payload[1] && frame[16] == payload[2]
            && frame[17] == payload[3]);
        assert(start =~= seq![8u8, 6, 0, 1, 8, 0, 6, 4]);
    }
}

} // verus!
