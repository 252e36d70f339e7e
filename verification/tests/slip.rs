use ibus_adapter::ibus_redirect::slip::{encode_packet, SlipError, SlipEvent, SlipReceiver};

#[test]
fn marks_and_escapes_are_written() {
    assert_eq!(
        encode_packet(&[1, 2, 0xc0, 3, 0xdb]),
        Ok(vec![0xc0, 1, 2, 0xdb, 0xdc, 3, 0xdb, 0xdd, 0xc0])
    );
    assert_eq!(encode_packet(&[]), Ok(vec![0xc0, 0xc0]));
}

#[test]
fn packet_that_just_fits_is_written_whole() {
    let line = encode_packet(&[7; 1998]).unwrap();
    assert_eq!(line.len(), 2000);
    assert_eq!(line[1..1999], [7; 1998]);
}

#[test]
fn packet_that_leaves_no_room_for_the_mark_is_refused() {
    assert_eq!(encode_packet(&[7; 1999]), Err(SlipError::NoOutputSpaceForEndByte));
    assert_eq!(encode_packet(&[7; 3000]), Err(SlipError::NoOutputSpaceForEndByte));
}

#[test]
fn packet_is_cut_before_an_escape_that_does_not_fit() {
    let mut packet = vec![7; 1998];
    packet.push(0xc0);
    let line = encode_packet(&packet).unwrap();
    assert_eq!(line.len(), 2000);
    assert_eq!(line[1..1999], [7; 1998]);
}

#[test]
fn nothing_heard_nothing_read() {
    let mut receiver = SlipReceiver::new();
    assert_eq!(receiver.next(), SlipEvent::Idle);
    receiver.hear(&[]);
    assert_eq!(receiver.next(), SlipEvent::Idle);
}

#[test]
fn encoded_packet_is_delivered() {
    let packet: Vec<u8> = (0..=255).collect();
    let mut receiver = SlipReceiver::new();
    receiver.hear(&encode_packet(&packet).unwrap());
    assert_eq!(receiver.next(), SlipEvent::Packet(packet));
    assert_eq!(receiver.next(), SlipEvent::Idle);
}

#[test]
fn packets_heard_at_once_are_delivered_one_by_one() {
    let mut receiver = SlipReceiver::new();
    let mut line = encode_packet(&[1, 0xdb]).unwrap();
    line.extend_from_slice(&encode_packet(&[2]).unwrap());
    receiver.hear(&line);
    assert_eq!(receiver.next(), SlipEvent::Packet(vec![1, 0xdb]));
    assert_eq!(receiver.next(), SlipEvent::Packet(vec![2]));
    assert_eq!(receiver.next(), SlipEvent::Idle);
}

#[test]
fn packet_heard_in_parts_is_delivered() {
    let packet = vec![9, 0xc0, 8, 0xdb, 7];
    let line = encode_packet(&packet).unwrap();
    for cut in 1..line.len() {
        let mut receiver = SlipReceiver::new();
        receiver.hear(&line[..cut]);
        assert_eq!(receiver.next(), SlipEvent::Split);
        assert_eq!(receiver.next(), SlipEvent::Idle);
        receiver.hear(&line[cut..]);
        assert_eq!(receiver.next(), SlipEvent::Packet(packet.clone()));
        assert_eq!(receiver.next(), SlipEvent::Idle);
    }
}

#[test]
fn packet_heard_byte_by_byte_is_delivered() {
    let packet = vec![0xdb, 1, 0xc0];
    let line = encode_packet(&packet).unwrap();
    let mut receiver = SlipReceiver::new();
    for byte in &line[..line.len() - 1] {
        receiver.hear(&[*byte]);
        assert_eq!(receiver.next(), SlipEvent::Split);
    }
    receiver.hear(&[0xc0]);
    assert_eq!(receiver.next(), SlipEvent::Packet(packet));
}

#[test]
fn packets_cut_anywhere_are_delivered_in_order() {
    let packets = vec![vec![1, 0xc0, 2], vec![], vec![0xdb, 0xdb], vec![3]];
    let mut line = vec![];
    for packet in &packets {
        line.extend_from_slice(&encode_packet(packet).unwrap());
    }
    for size in 1..=line.len() {
        let mut receiver = SlipReceiver::new();
        let mut delivered = vec![];
        for part in line.chunks(size) {
            receiver.hear(part);
            loop {
                match receiver.next() {
                    SlipEvent::Packet(packet) => delivered.push(packet),
                    SlipEvent::Failed(error) => panic!("{:?}", error),
                    SlipEvent::Split | SlipEvent::Idle => break,
                }
            }
            assert_eq!(delivered, packets[..delivered.len()]);
        }
        assert_eq!(delivered, packets);
        assert_eq!(receiver.next(), SlipEvent::Idle);
    }
}

#[test]
fn missing_mark_drops_what_was_heard() {
    let mut receiver = SlipReceiver::new();
    receiver.hear(&[1, 0xc0, 2, 0xc0]);
    assert_eq!(receiver.next(), SlipEvent::Failed(SlipError::BadHeaderDecode));
    assert_eq!(receiver.next(), SlipEvent::Idle);
    receiver.hear(&[0xc0, 5, 0xc0]);
    assert_eq!(receiver.next(), SlipEvent::Packet(vec![5]));
}

#[test]
fn bad_escape_drops_what_was_heard() {
    let mut receiver = SlipReceiver::new();
    receiver.hear(&[0xc0, 1, 0xdb]);
    assert_eq!(receiver.next(), SlipEvent::Split);
    receiver.hear(&[3, 0xc0, 0xc0, 4, 0xc0]);
    assert_eq!(receiver.next(), SlipEvent::Failed(SlipError::BadEscapeSequenceDecode));
    assert_eq!(receiver.next(), SlipEvent::Idle);
    receiver.hear(&[0xc0, 5, 0xc0]);
    assert_eq!(receiver.next(), SlipEvent::Packet(vec![5]));
}

#[test]
fn packet_longer_than_the_buffer_comes_in_pieces() {
    let mut line = vec![0xc0];
    line.extend_from_slice(&[6; 4500]);
    line.push(0xc0);
    let mut receiver = SlipReceiver::new();
    receiver.hear(&line);
    assert_eq!(receiver.next(), SlipEvent::Split);
    assert_eq!(receiver.next(), SlipEvent::Packet(vec![6; 4500]));
    assert_eq!(receiver.next(), SlipEvent::Idle);
}
