use embassy_sync::blocking_mutex::raw::NoopRawMutex;
use embassy_sync::channel::Channel;
use ibus_adapter::channel::{ChannelSender, MAX_MESSAGES_CHANNEL};
use ibus_adapter::driver::{frame_parses, DriverResult, WrapperDriver};
use ibus_adapter::ipv4_packet_reconstructor::Ipv4PacketParser;
use ibus_adapter::router::Ipv4Router;
use ibus_adapter::wire::arp;
use ibus_adapter::wire::arp::{ArpOperation, ArpRepr};
use ibus_adapter::wire::ethernet::{ethernet_frame, EthernetAddress, ETHERTYPE_ARP, ETHERTYPE_IPV4};
use ibus_adapter::wire::ipv4::{Ipv4Address, Ipv4Cidr};

type MessageChannel = Channel<NoopRawMutex, Vec<u8>, MAX_MESSAGES_CHANNEL>;

const OUR_MAC: EthernetAddress = EthernetAddress([0xcc; 6]);
const MAGIC_MAC: EthernetAddress = EthernetAddress([0xcc, 0xcc, 0xcc, 0xcc, 0xcc, 0xca]);
const HOST_MAC: EthernetAddress = EthernetAddress([0x88; 6]);

fn channel() -> &'static MessageChannel {
    Box::leak(Box::new(MessageChannel::new()))
}

fn routes() -> Ipv4Router {
    Ipv4Router {
        gateway_address: Ipv4Address::new(10, 0, 0, 1),
        subnet: Ipv4Cidr::new(Ipv4Address::new(10, 0, 0, 0), 24),
        device_address: Ipv4Address::new(10, 0, 0, 169),
    }
}

fn driver_for_host(channel: &'static MessageChannel, host: Ipv4Address) -> WrapperDriver {
    WrapperDriver::new(OUR_MAC, MAGIC_MAC, ChannelSender::new(channel.dyn_sender()), host, &routes())
}

fn driver(channel: &'static MessageChannel) -> WrapperDriver {
    driver_for_host(channel, Ipv4Address::new(10, 1, 0, 100))
}

fn arp_frame(operation: ArpOperation, from: Ipv4Address, about: Ipv4Address) -> Vec<u8> {
    let repr = ArpRepr {
        operation,
        source_hardware_addr: HOST_MAC,
        source_protocol_addr: from,
        target_hardware_addr: EthernetAddress([0; 6]),
        target_protocol_addr: about,
    };
    ethernet_frame(EthernetAddress([0xff; 6]), HOST_MAC, ETHERTYPE_ARP, &arp::emit(&repr))
}

fn poll(driver: &WrapperDriver, frame: &[u8]) -> DriverResult {
    assert!(frame_parses(frame));
    driver.do_read_poll(Some(frame))
}

fn packet_to(a: u8, b: u8, c: u8, d: u8) -> Vec<u8> {
    let mut packet = vec![0x45, 0, 0, 22, 0, 1, 0, 0, 64, 17, 0, 0, 10, 0, 0, 2, a, b, c, d];
    let mut sum: u32 = 0;
    for word in packet.chunks(2) {
        sum += word[0] as u32 * 256 + word[1] as u32;
    }
    sum = sum / 0x1_0000 + sum % 0x1_0000;
    let checksum = 0xffff - sum as u16;
    packet[10] = (checksum / 256) as u8;
    packet[11] = (checksum % 256) as u8;
    packet.extend_from_slice(&[0xab, 0xcd]);
    packet
}

#[test]
fn no_frame() {
    assert_eq!(driver(channel()).do_read_poll(None), DriverResult::Nothing);
}

#[test]
fn request_for_a_bus_address_is_answered() {
    let driver = driver(channel());
    let asker = Ipv4Address::new(10, 0, 0, 2);
    let asked = Ipv4Address::new(10, 0, 0, 7);
    let mut expected = vec![0x88; 6];
    expected.extend_from_slice(&[0xcc, 0xcc, 0xcc, 0xcc, 0xcc, 0xca]);
    expected.extend_from_slice(&[0x08, 0x06, 0, 1, 0x08, 0, 6, 4, 0, 2]);
    expected.extend_from_slice(&[0xcc, 0xcc, 0xcc, 0xcc, 0xcc, 0xca, 10, 0, 0, 7]);
    expected.extend_from_slice(&[0x88, 0x88, 0x88, 0x88, 0x88, 0x88, 10, 0, 0, 2]);
    let result = poll(&driver, &arp_frame(ArpOperation::Request, asker, asked));
    assert_eq!(result, DriverResult::Retry(expected.clone()));
    assert_eq!(poll(&driver, &expected), DriverResult::Token);
}

#[test]
fn other_addresses_are_not_answered() {
    let asker = Ipv4Address::new(10, 0, 0, 2);
    let host = Ipv4Address::new(10, 0, 0, 100);
    let driver = driver_for_host(channel(), host);
    let others = [
        Ipv4Address::new(10, 0, 0, 1),
        Ipv4Address::new(10, 0, 0, 169),
        Ipv4Address::new(10, 0, 1, 7),
        host,
        asker,
    ];
    for asked in others {
        let frame = arp_frame(ArpOperation::Request, asker, asked);
        assert_eq!(poll(&driver, &frame), DriverResult::Token);
    }
    let probe = arp_frame(
        ArpOperation::Request,
        Ipv4Address::new(0, 0, 0, 0),
        Ipv4Address::new(10, 0, 0, 7),
    );
    assert_eq!(poll(&driver, &probe), DriverResult::Token);
}

#[test]
fn arp_replies_go_on() {
    let frame = arp_frame(
        ArpOperation::Reply,
        Ipv4Address::new(10, 0, 0, 2),
        Ipv4Address::new(10, 0, 0, 7),
    );
    assert_eq!(poll(&driver(channel()), &frame), DriverResult::Token);
}

#[test]
fn answer_is_given_with_its_receiver() {
    let driver = driver(channel());
    let request = ArpRepr {
        operation: ArpOperation::Request,
        source_hardware_addr: HOST_MAC,
        source_protocol_addr: Ipv4Address::new(10, 0, 0, 2),
        target_hardware_addr: EthernetAddress([0; 6]),
        target_protocol_addr: Ipv4Address::new(10, 0, 0, 7),
    };
    let answer = ArpRepr {
        operation: ArpOperation::Reply,
        source_hardware_addr: MAGIC_MAC,
        source_protocol_addr: Ipv4Address::new(10, 0, 0, 7),
        target_hardware_addr: HOST_MAC,
        target_protocol_addr: Ipv4Address::new(10, 0, 0, 2),
    };
    assert_eq!(driver.router.intercept_arp_repr(&request), Some((answer, HOST_MAC)));
}

#[test]
fn broken_arp_frames_are_told_apart() {
    let frame = arp_frame(
        ArpOperation::Request,
        Ipv4Address::new(10, 0, 0, 2),
        Ipv4Address::new(10, 0, 0, 7),
    );
    assert!(frame_parses(&frame));
    assert!(!frame_parses(&frame[..41]));
    assert!(frame_parses(&frame[..13]));
    assert!(frame_parses(&[]));
}

#[test]
fn short_and_foreign_frames_go_on() {
    let driver = driver(channel());
    assert_eq!(poll(&driver, &[0; 13]), DriverResult::Token);
    let foreign = ethernet_frame(OUR_MAC, HOST_MAC, 0x86dd, &packet_to(10, 0, 0, 7));
    assert_eq!(poll(&driver, &foreign), DriverResult::Token);
}

#[test]
fn packets_for_the_bus_are_routed() {
    let driver = driver(channel());
    let packet = packet_to(10, 0, 0, 7);
    let frame = ethernet_frame(MAGIC_MAC, HOST_MAC, ETHERTYPE_IPV4, &packet);
    assert_eq!(poll(&driver, &frame), DriverResult::Route(packet));
}

#[test]
fn other_packets_are_not_routed() {
    let driver = driver(channel());
    let others = [
        packet_to(10, 0, 0, 1),
        packet_to(10, 0, 0, 169),
        packet_to(10, 0, 1, 7),
        packet_to(10, 0, 0, 7)[..21].to_vec(),
        vec![0x45; 19],
    ];
    for packet in others {
        let frame = ethernet_frame(MAGIC_MAC, HOST_MAC, ETHERTYPE_IPV4, &packet);
        assert_eq!(poll(&driver, &frame), DriverResult::Token);
    }
}

#[test]
fn answered_addresses_are_routed() {
    let driver = driver(channel());
    let asker = Ipv4Address::new(10, 0, 0, 2);
    for last in 0..=255 {
        let asked = Ipv4Address::new(10, 0, 0, last);
        let question = arp_frame(ArpOperation::Request, asker, asked);
        if matches!(poll(&driver, &question), DriverResult::Retry(_)) {
            let packet = packet_to(10, 0, 0, last);
            let frame = ethernet_frame(MAGIC_MAC, HOST_MAC, ETHERTYPE_IPV4, &packet);
            assert_eq!(poll(&driver, &frame), DriverResult::Route(packet));
        } else {
            assert!(matches!(last, 1 | 2 | 169));
        }
    }
}

#[test]
fn destinations_on_the_bus() {
    let routes = routes();
    assert!(routes.is_ipv4_packet_valid_for_routing(&packet_to(10, 0, 0, 7)));
    assert!(!routes.is_ipv4_packet_valid_for_routing(&packet_to(10, 0, 0, 1)));
    assert!(!routes.is_ipv4_packet_valid_for_routing(&packet_to(10, 0, 0, 169)));
    assert!(!routes.is_ipv4_packet_valid_for_routing(&packet_to(11, 0, 0, 7)));
}

#[test]
fn routed_packet_is_sent_with_its_checksum() {
    let channel = channel();
    let mut driver = driver(channel);
    let packet = packet_to(10, 0, 0, 7);
    assert!(driver.router.intercept_ipv4_packet(packet.clone(), 0xdead_1234));
    let mut expected = packet;
    expected.extend_from_slice(&[0x34, 0x12]);
    assert_eq!(channel.try_receive().unwrap(), expected);
    assert!(channel.try_receive().is_err());
}

#[test]
fn routed_packet_that_finds_no_room_is_told() {
    let channel = channel();
    let mut driver = driver(channel);
    for _ in 0..MAX_MESSAGES_CHANNEL {
        assert!(driver.router.intercept_ipv4_packet(packet_to(10, 0, 0, 7), 0));
    }
    assert!(!driver.router.intercept_ipv4_packet(packet_to(10, 0, 0, 7), 0));
}

#[test]
fn routed_packet_comes_out_at_the_other_end_of_the_bus() {
    let to_bus = channel();
    let from_bus = channel();
    let mut driver = driver(to_bus);
    let mut parser = Ipv4PacketParser::new(ChannelSender::new(from_bus.dyn_sender()));
    let packet = packet_to(10, 0, 0, 7);
    let frame = ethernet_frame(MAGIC_MAC, HOST_MAC, ETHERTYPE_IPV4, &packet);
    match poll(&driver, &frame) {
        DriverResult::Route(routed) => {
            assert!(driver.router.intercept_ipv4_packet(routed, 0xbeef))
        }
        other => panic!("not routed: {:?}", other),
    }
    let on_bus = to_bus.try_receive().unwrap();
    parser.push_slice(&on_bus);
    let delivered = from_bus.try_receive().unwrap();
    assert_eq!(delivered, on_bus);
    assert_eq!(delivered[..packet.len()], packet);
}
