use embassy_sync::blocking_mutex::raw::NoopRawMutex;
use embassy_sync::channel::Channel;
use ibus_adapter::channel::{ChannelSender, MAX_MESSAGES_CHANNEL};
use ibus_adapter::ipv4_packet_reconstructor::Ipv4PacketParser;

type MessageChannel = Channel<NoopRawMutex, Vec<u8>, MAX_MESSAGES_CHANNEL>;

fn channel() -> &'static MessageChannel {
    Box::leak(Box::new(MessageChannel::new()))
}

fn with_checksum(mut packet: Vec<u8>) -> Vec<u8> {
    let header_len = (packet[0] % 16) as usize * 4;
    packet[10] = 0;
    packet[11] = 0;
    let mut sum: u32 = 0;
    for word in packet[..header_len].chunks(2) {
        sum += word[0] as u32 * 256 + word[1] as u32;
    }
    while sum > 0xffff {
        sum = sum / 0x1_0000 + sum % 0x1_0000;
    }
    let checksum = 0xffff - sum as u16;
    packet[10] = (checksum / 256) as u8;
    packet[11] = (checksum % 256) as u8;
    packet
}

fn header(total_len: u16) -> Vec<u8> {
    let mut packet = vec![0x45, 0, (total_len / 256) as u8, (total_len % 256) as u8];
    packet.extend_from_slice(&[0, 1, 0, 0, 64, 17, 0, 0, 10, 0, 0, 5, 10, 0, 0, 7]);
    with_checksum(packet)
}

fn bus_frame(payload: &[u8]) -> Vec<u8> {
    let mut frame = header(20 + payload.len() as u16);
    frame.extend_from_slice(payload);
    frame.extend_from_slice(&[0xcc, 0xdd]);
    frame
}

/// A header whose checksum is well known.
fn known_header() -> Vec<u8> {
    vec![
        0x45, 0x00, 0x00, 0x73, 0x00, 0x00, 0x40, 0x00, 0x40, 0x11, 0xb8, 0x61, 0xc0, 0xa8, 0x00,
        0x01, 0xc0, 0xa8, 0x00, 0xc7,
    ]
}

#[test]
fn packet_is_delivered_with_its_checksum() {
    let channel = channel();
    let mut parser = Ipv4PacketParser::new(ChannelSender::new(channel.dyn_sender()));
    let mut frame = known_header();
    frame.extend_from_slice(&[0x5a; 95]);
    frame.extend_from_slice(&[0x12, 0x34]);
    for byte in &frame[..frame.len() - 1] {
        assert!(parser.push_byte(*byte));
        assert!(channel.try_receive().is_err());
    }
    assert!(parser.push_byte(0x34));
    assert_eq!(channel.try_receive().unwrap(), frame);
    assert!(channel.try_receive().is_err());
}

#[test]
fn packets_that_follow_each_other_are_delivered_in_order() {
    let channel = channel();
    let mut parser = Ipv4PacketParser::new(ChannelSender::new(channel.dyn_sender()));
    let first = bus_frame(&[1, 2, 3]);
    let second = bus_frame(&[]);
    let mut stream = first.clone();
    stream.extend_from_slice(&second);
    parser.push_slice(&stream);
    assert_eq!(channel.try_receive().unwrap(), first);
    assert_eq!(channel.try_receive().unwrap(), second);
    assert!(channel.try_receive().is_err());
}

#[test]
fn it_does_not_matter_where_the_bytes_are_cut() {
    let frame = bus_frame(&[9, 8, 7]);
    for cut in 0..frame.len() {
        let channel = channel();
        let mut parser = Ipv4PacketParser::new(ChannelSender::new(channel.dyn_sender()));
        parser.push_slice(&frame[..cut]);
        assert!(channel.try_receive().is_err());
        parser.push_slice(&frame[cut..]);
        assert_eq!(channel.try_receive().unwrap(), frame);
    }
}

#[test]
fn wrong_header_checksum_is_rejected() {
    let channel = channel();
    let mut parser = Ipv4PacketParser::new(ChannelSender::new(channel.dyn_sender()));
    let mut broken = known_header();
    broken[11] ^= 1;
    for byte in &broken[..19] {
        assert!(parser.push_byte(*byte));
    }
    assert!(!parser.push_byte(broken[19]));

    let frame = bus_frame(&[4]);
    parser.push_slice(&frame);
    assert_eq!(channel.try_receive().unwrap(), frame);
}

#[test]
fn rest_of_a_slice_is_dropped_with_a_rejected_header() {
    let channel = channel();
    let mut parser = Ipv4PacketParser::new(ChannelSender::new(channel.dyn_sender()));
    let frame = bus_frame(&[4]);
    let mut slice = known_header();
    slice[11] ^= 1;
    slice.extend_from_slice(&frame);
    parser.push_slice(&slice);
    assert!(channel.try_receive().is_err());
    parser.push_slice(&frame);
    assert_eq!(channel.try_receive().unwrap(), frame);
}

#[test]
fn longest_packet_is_taken_and_a_longer_one_rejected() {
    let channel = channel();
    let mut parser = Ipv4PacketParser::new(ChannelSender::new(channel.dyn_sender()));
    let frame = bus_frame(&[0x33; 1980]);
    parser.push_slice(&frame);
    assert_eq!(channel.try_receive().unwrap(), frame);

    let longer = header(2001);
    for byte in &longer[..19] {
        assert!(parser.push_byte(*byte));
    }
    assert!(!parser.push_byte(longer[19]));
}

#[test]
fn header_with_options_is_waited_for() {
    let channel = channel();
    let mut parser = Ipv4PacketParser::new(ChannelSender::new(channel.dyn_sender()));
    let mut packet = header(25);
    packet[0] = 0x46;
    packet.extend_from_slice(&[1, 1, 1, 0]);
    let mut frame = with_checksum(packet);
    frame.extend_from_slice(&[0x77, 0xcc, 0xdd]);
    parser.push_slice(&frame);
    assert_eq!(channel.try_receive().unwrap(), frame);
}

#[test]
fn packet_shorter_than_its_header_is_rejected() {
    let channel = channel();
    let mut parser = Ipv4PacketParser::new(ChannelSender::new(channel.dyn_sender()));
    let broken = [
        0x45, 0x00, 0x00, 0x12, 0x00, 0x00, 0x00, 0x00, 0x40, 0x11, 0x66, 0xd9, 0x0a, 0x00, 0x00,
        0x01, 0x0a, 0x00, 0x00, 0x02,
    ];
    for byte in &broken[..19] {
        assert!(parser.push_byte(*byte));
    }
    assert!(!parser.push_byte(broken[19]));
    for byte in &header(19)[..19] {
        assert!(parser.push_byte(*byte));
    }
    assert!(!parser.push_byte(header(19)[19]));
    assert!(channel.try_receive().is_err());
    let frame = bus_frame(&[5]);
    parser.push_slice(&frame);
    assert_eq!(channel.try_receive().unwrap(), frame);
}

#[test]
fn header_that_is_too_short_is_rejected() {
    let channel = channel();
    let mut parser = Ipv4PacketParser::new(ChannelSender::new(channel.dyn_sender()));
    for first in [0x00, 0x40, 0x44] {
        assert!(parser.push_byte(first));
        for _ in 0..18 {
            assert!(parser.push_byte(0));
        }
        assert!(!parser.push_byte(0));
        assert!(channel.try_receive().is_err());
        let frame = bus_frame(&[5]);
        parser.push_slice(&frame);
        assert_eq!(channel.try_receive().unwrap(), frame);
    }
}

#[test]
fn packet_that_is_only_a_header_is_taken() {
    let channel = channel();
    let mut parser = Ipv4PacketParser::new(ChannelSender::new(channel.dyn_sender()));
    let frame = bus_frame(&[]);
    for byte in &frame {
        assert!(parser.push_byte(*byte));
    }
    assert_eq!(channel.try_receive().unwrap(), frame);
}

#[test]
fn packet_that_finds_no_room_is_dropped() {
    let channel = channel();
    let mut parser = Ipv4PacketParser::new(ChannelSender::new(channel.dyn_sender()));
    for number in 0..16 {
        parser.push_slice(&bus_frame(&[number]));
    }
    for number in 0..15 {
        assert_eq!(channel.try_receive().unwrap(), bus_frame(&[number]));
    }
    assert!(channel.try_receive().is_err());
    parser.push_slice(&bus_frame(&[99]));
    assert_eq!(channel.try_receive().unwrap(), bus_frame(&[99]));
}

#[test]
fn sender_tells_whether_a_packet_was_taken() {
    let channel = channel();
    let mut sender = ChannelSender::new(channel.dyn_sender());
    for number in 0..15 {
        assert!(sender.try_send(vec![number]));
    }
    assert!(!sender.try_send(vec![15]));
    assert_eq!(channel.try_receive().unwrap(), vec![0]);
    assert!(sender.try_send(vec![16]));
    for number in (1..15).chain([16]) {
        assert_eq!(channel.try_receive().unwrap(), vec![number]);
    }
    assert!(channel.try_receive().is_err());
}
