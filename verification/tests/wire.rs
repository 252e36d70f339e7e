use ibus_adapter::ibus_to_ethernet::{
    ibus_ipv4_to_ethernet, EthernetRedirect, RedirectAction, RedirectEvent,
};
use ibus_adapter::packet_log::{log_packet, PacketLog, UdpPorts};
use ibus_adapter::wire::arp;
use ibus_adapter::wire::arp::{ArpOperation, ArpRepr};
use ibus_adapter::wire::ethernet::{ethernet_frame, EthernetAddress, ETHERTYPE_ARP};
use ibus_adapter::wire::ipv4::{Ipv4Address, Ipv4Cidr, Ipv4Repr};

fn with_checksum(mut packet: Vec<u8>) -> Vec<u8> {
    let header_len = (packet[0] % 16) as usize * 4;
    packet[10] = 0;
    packet[11] = 0;
    let mut sum: u32 = 0;
    for word in packet[..header_len].chunks(2) {
        sum += word[0] as u32 * 256 + word[1] as u32;
    }
    while sum > 0xffff {
        sum = sum / 0x1_0000 + sum % 0x1_0000;
    }
    let checksum = 0xffff - sum as u16;
    packet[10] = (checksum / 256) as u8;
    packet[11] = (checksum % 256) as u8;
    packet
}

fn ipv4_packet(protocol: u8, flags: u8, payload: &[u8]) -> Vec<u8> {
    let total_len = 20 + payload.len() as u16;
    let mut packet = vec![0x45, 0, (total_len / 256) as u8, (total_len % 256) as u8];
    packet.extend_from_slice(&[0, 1, flags, 0, 64, protocol, 0, 0]);
    packet.extend_from_slice(&[10, 0, 0, 5, 10, 0, 0, 7]);
    packet.extend_from_slice(payload);
    with_checksum(packet)
}

#[test]
fn address_octets() {
    assert_eq!(Ipv4Address::new(10, 0, 0, 169).bits, 0x0a00_00a9);
    assert_eq!(Ipv4Address::new(255, 255, 255, 255).bits, u32::MAX);
}

#[test]
fn subnets_contain_what_shares_their_prefix() {
    let subnet = Ipv4Cidr::new(Ipv4Address::new(10, 0, 0, 0), 24);
    assert!(subnet.contains_addr(&Ipv4Address::new(10, 0, 0, 0)));
    assert!(subnet.contains_addr(&Ipv4Address::new(10, 0, 0, 255)));
    assert!(!subnet.contains_addr(&Ipv4Address::new(10, 0, 1, 0)));
    assert!(!subnet.contains_addr(&Ipv4Address::new(10, 1, 0, 100)));

    let odd = Ipv4Cidr::new(Ipv4Address::new(192, 168, 20, 77), 20);
    assert!(odd.contains_addr(&Ipv4Address::new(192, 168, 16, 1)));
    assert!(odd.contains_addr(&Ipv4Address::new(192, 168, 31, 255)));
    assert!(!odd.contains_addr(&Ipv4Address::new(192, 168, 32, 0)));
}

#[test]
fn extreme_prefixes() {
    let all = Ipv4Cidr::new(Ipv4Address::new(1, 2, 3, 4), 0);
    assert!(all.contains_addr(&Ipv4Address::new(255, 0, 255, 0)));
    let one = Ipv4Cidr::new(Ipv4Address::new(1, 2, 3, 4), 32);
    assert!(one.contains_addr(&Ipv4Address::new(1, 2, 3, 4)));
    assert!(!one.contains_addr(&Ipv4Address::new(1, 2, 3, 5)));
}

#[test]
fn frame_has_addresses_type_and_payload() {
    let frame = ethernet_frame(
        EthernetAddress([1, 2, 3, 4, 5, 6]),
        EthernetAddress([7, 8, 9, 10, 11, 12]),
        ETHERTYPE_ARP,
        &[0xaa, 0xbb],
    );
    assert_eq!(frame, vec![1, 2, 3, 4, 5, 6, 7, 8, 9, 10, 11, 12, 0x08, 0x06, 0xaa, 0xbb]);
}

#[test]
fn bus_packet_goes_into_an_ipv4_frame() {
    let frame = ibus_ipv4_to_ethernet(
        &[0x45, 0x00, 0x99],
        EthernetAddress([0x88; 6]),
        EthernetAddress([0xcc, 0xcc, 0xcc, 0xcc, 0xcc, 0xca]),
    );
    let mut expected = vec![0x88; 6];
    expected.extend_from_slice(&[0xcc, 0xcc, 0xcc, 0xcc, 0xcc, 0xca, 0x08, 0x00]);
    expected.extend_from_slice(&[0x45, 0x00, 0x99]);
    assert_eq!(frame, expected);
}

#[test]
fn each_bus_packet_becomes_one_frame_in_order() {
    let host = EthernetAddress([0x88; 6]);
    let magic = EthernetAddress([0xcc, 0xcc, 0xcc, 0xcc, 0xcc, 0xca]);
    let mut redirect = EthernetRedirect::new(host, magic);
    let packets = [ipv4_packet(17, 0, &[1, 2]), vec![], vec![0xff]];
    for packet in packets {
        assert_eq!(redirect.action(), RedirectAction::Receive);
        assert_eq!(redirect.frame(), None);
        redirect.handle(RedirectEvent::Received(packet.clone()));
        assert_eq!(redirect.action(), RedirectAction::Send);
        let mut expected = vec![0x88; 6];
        expected.extend_from_slice(&[0xcc, 0xcc, 0xcc, 0xcc, 0xcc, 0xca, 0x08, 0x00]);
        expected.extend_from_slice(&packet);
        assert_eq!(redirect.frame(), Some(expected.as_slice()));
        redirect.handle(RedirectEvent::Sent);
    }
    assert_eq!(redirect.action(), RedirectAction::Receive);
}

fn request() -> ArpRepr {
    ArpRepr {
        operation: ArpOperation::Request,
        source_hardware_addr: EthernetAddress([0x88; 6]),
        source_protocol_addr: Ipv4Address::new(10, 0, 0, 2),
        target_hardware_addr: EthernetAddress([0; 6]),
        target_protocol_addr: Ipv4Address::new(10, 0, 0, 7),
    }
}

fn request_bytes() -> Vec<u8> {
    let mut bytes = vec![0, 1, 0x08, 0, 6, 4, 0, 1];
    bytes.extend_from_slice(&[0x88; 6]);
    bytes.extend_from_slice(&[10, 0, 0, 2]);
    bytes.extend_from_slice(&[0; 6]);
    bytes.extend_from_slice(&[10, 0, 0, 7]);
    bytes
}

#[test]
fn arp_packet_is_written() {
    assert_eq!(arp::emit(&request()), request_bytes());
}

#[test]
fn arp_packet_is_read() {
    assert_eq!(arp::parse(&request_bytes()), Some(request()));
    let mut padded = request_bytes();
    padded.extend_from_slice(&[0; 18]);
    assert_eq!(arp::parse(&padded), Some(request()));
}

#[test]
fn arp_packet_with_another_operation() {
    let mut bytes = request_bytes();
    bytes[7] = 9;
    let repr = arp::parse(&bytes).unwrap();
    assert_eq!(repr.operation, ArpOperation::Unknown(9));
    assert_eq!(arp::emit(&repr), bytes);
    bytes[7] = 2;
    assert_eq!(arp::parse(&bytes).unwrap().operation, ArpOperation::Reply);
}

#[test]
fn broken_arp_packets_are_not_read() {
    let bytes = request_bytes();
    assert_eq!(arp::parse(&bytes[..27]), None);
    assert_eq!(arp::parse(&[]), None);
    for at in [1, 2, 4, 5] {
        let mut broken = bytes.clone();
        broken[at] += 1;
        broken.extend_from_slice(&[0; 8]);
        assert_eq!(arp::parse(&broken), None);
    }
}

#[test]
fn log_shows_udp_ports() {
    let packet = ipv4_packet(17, 0x40, &[0x16, 0x33, 0x12, 0x34, 0, 9, 0, 0, 0xff]);
    assert_eq!(
        log_packet(&packet),
        PacketLog::Packet(
            Ipv4Repr {
                src_addr: Ipv4Address::new(10, 0, 0, 5),
                dst_addr: Ipv4Address::new(10, 0, 0, 7),
                next_header: 17,
                payload_len: 9,
                hop_limit: 64,
            },
            Some(UdpPorts { src_port: 5683, dst_port: 0x1234 }),
        )
    );
}

#[test]
fn log_shows_packets_that_hold_no_datagram() {
    let packet = ipv4_packet(1, 0, &[1, 2, 3]);
    assert!(matches!(log_packet(&packet), PacketLog::Packet(repr, None) if repr.payload_len == 3));
    let too_long = ipv4_packet(17, 0, &[0, 1, 0, 2, 0, 9, 0, 0]);
    assert!(matches!(log_packet(&too_long), PacketLog::Packet(_, None)));
}

#[test]
fn log_refuses_what_is_no_packet() {
    assert_eq!(log_packet(&[0x45; 19]), PacketLog::ParseFailed);
    let mut short = ipv4_packet(17, 0, &[1, 2, 3]);
    short.pop();
    assert_eq!(log_packet(&short), PacketLog::ParseFailed);

    let mut wrong_checksum = ipv4_packet(17, 0, &[1, 2, 3]);
    wrong_checksum[10] ^= 1;
    assert_eq!(log_packet(&wrong_checksum), PacketLog::NotAPacket);
    let fragment = ipv4_packet(17, 0x20, &[1, 2, 3]);
    assert_eq!(log_packet(&fragment), PacketLog::NotAPacket);
    let mut version_6 = ipv4_packet(17, 0, &[1, 2, 3]);
    version_6[0] = 0x65;
    assert_eq!(log_packet(&with_checksum(version_6)), PacketLog::NotAPacket);
}
