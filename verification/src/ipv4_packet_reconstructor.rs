//! Puts the bytes heard on the bus together to packets.

use crate::channel::{growing_adds_up, growing_may_be_nothing, ChannelSender, Sent};
use crate::wire::ipv4;
use crate::wire::ipv4::{
    header_checksum_ok, header_len_field, lengths_ok, total_len_field, word_sum,
};
use vstd::prelude::*;

verus! {

/// How many bytes of checksum follow a packet on the bus.
pub const CRC_SIZE: usize = 2;

/// The longest packet that is taken from the bus.
pub const MAX_PACKET_SIZE: usize = 2000;

/// The shortest header that a packet can have.
pub const MIN_HEADER_LEN: usize = 20;

/// Collects bytes until they make up a packet with its checksum, and hands both to a channel.
pub struct Ipv4PacketParser {
    buffer: Vec<u8>,
    expected_len: Option<usize>,
    expected_header_len: u8,
    sender: ChannelSender,
}

/// Whether the header of the packet that `bytes` begin is there.
pub open spec fn has_header(bytes: Seq<u8>) -> bool {
    bytes.len() >= MIN_HEADER_LEN && MIN_HEADER_LEN <= header_len_field(bytes) <= bytes.len()
}

/// Whether a header is worth waiting for its packet: the checksum is right, and the packet neither
/// shorter than its header nor too long.
pub open spec fn header_acceptable(bytes: Seq<u8>) -> bool {
    &&& header_checksum_ok(bytes)
    &&& header_len_field(bytes) <= total_len_field(bytes) <= MAX_PACKET_SIZE
}

/// Whether the last of `bytes` shows that they begin no valid packet: it tells of a header shorter
/// than a header can be, or completes one that is not acceptable.
pub open spec fn is_rejected(bytes: Seq<u8>) -> bool {
    ||| bytes.len() == MIN_HEADER_LEN && header_len_field(bytes) < MIN_HEADER_LEN
    ||| has_header(bytes) && header_len_field(bytes) == bytes.len() && !header_acceptable(bytes)
}

/// Whether the last of `bytes` completes a packet and its checksum.
pub open spec fn is_complete(bytes: Seq<u8>) -> bool {
    has_header(bytes) && bytes.len() == total_len_field(bytes) + CRC_SIZE
}

/// What a parser has after some bytes.
pub struct Parsed {
    /// The bytes of the packet that is not complete yet.
    pub pending: Seq<u8>,
    /// What has been handed to the channel.
    pub offered: Seq<Seq<u8>>,
    /// Whether no packet was invalid.
    pub accepted: bool,
}

/// Whether `bytes` are what a parser can hold: they begin a packet that is not complete yet, and
/// the header, if it is there, is acceptable.
pub open spec fn is_pending(bytes: Seq<u8>) -> bool {
    bytes.len() >= MIN_HEADER_LEN ==> {
        &&& header_len_field(bytes) >= MIN_HEADER_LEN
        &&& has_header(bytes) ==> header_acceptable(bytes) && bytes.len() < total_len_field(bytes)
            + CRC_SIZE
    }
}

/// What a parser has after one more byte. What is rejected is dropped. A complete packet leaves the
/// parser, and goes to the channel, with its checksum, if it is valid.
pub open spec fn parse_byte(pending: Seq<u8>, offered: Seq<Seq<u8>>, byte: u8) -> Parsed {
    let bytes = pending.push(byte);
    if is_rejected(bytes) {
        Parsed { pending: Seq::empty(), offered, accepted: false }
    } else if is_complete(bytes) {
        let packet_ok = lengths_ok(bytes.take(bytes.len() - CRC_SIZE));
        Parsed {
            pending: Seq::empty(),
            offered: if packet_ok {
                offered.push(bytes)
            } else {
                offered
            },
            accepted: packet_ok,
        }
    } else {
        Parsed { pending: bytes, offered, accepted: true }
    }
}

/// What a parser has after more bytes. What follows an invalid packet is dropped with it.
pub open spec fn parse_bytes(pending: Seq<u8>, offered: Seq<Seq<u8>>, bytes: Seq<u8>) -> Parsed
    decreases bytes.len(),
{
    if bytes.len() == 0 {
        Parsed { pending, offered, accepted: true }
    } else {
        let next = parse_byte(pending, offered, bytes[0]);
        if next.accepted {
            parse_bytes(next.pending, next.offered, bytes.skip(1))
        } else {
            next
        }
    }
}

impl Ipv4PacketParser {
    /// The bytes of the packet that is not complete yet.
    pub closed spec fn pending(&self) -> Seq<u8> {
        self.buffer@
    }

    /// What has been handed to the channel.
    pub closed spec fn offered(&self) -> Seq<Seq<u8>> {
        self.sender.offered()
    }

    /// What the channel took of it.
    pub closed spec fn taken(&self) -> Seq<Seq<u8>> {
        self.sender.taken()
    }

    /// What went to the channel.
    pub open spec fn sent(&self) -> Sent {
        Sent { offered: self.offered(), taken: self.taken() }
    }

    /// The length of the header that the parser waits for or has, once it is known, else zero.
    pub closed spec fn spec_expected_header_len(&self) -> u8 {
        self.expected_header_len
    }

    /// The length of the packet with its checksum, once it is known.
    pub closed spec fn spec_expected_len(&self) -> Option<usize> {
        self.expected_len
    }

    /// The parser knows what the bytes it holds say of the lengths to wait for, and is still
    /// waiting.
    pub open spec fn wf(&self) -> bool {
        let bytes = self.pending();
        &&& is_pending(bytes)
        &&& self.spec_expected_header_len() == if bytes.len() >= MIN_HEADER_LEN {
            header_len_field(bytes)
        } else {
            0
        }
        &&& match self.spec_expected_len() {
            Some(len) => has_header(bytes) && len == total_len_field(bytes) + CRC_SIZE,
            None => !has_header(bytes),
        }
    }

    /// A parser that holds nothing and hands its packets to `sender`.
    pub fn new(sender: ChannelSender) -> (parser: Self)
        ensures
            parser.wf(),
            parser.pending() == Seq::<u8>::empty(),
            parser.offered() == sender.offered(),
            parser.sent() == sender.sent(),
    {
        Self { buffer: Vec::new(), expected_len: None, expected_header_len: 0, sender }
    }

    /// Forgets what the parser holds.
    fn clear(&mut self)
        ensures
            final(self).wf(),
            final(self).pending() == Seq::<u8>::empty(),
            final(self).offered() == old(self).offered(),
            final(self).sent() == old(self).sent(),
    {
        self.buffer.clear();
        self.expected_len = None;
        self.expected_header_len = 0;
    }

    /// Pushes a byte into the parser. If the byte completes a packet, the packet is handed to the
    /// channel. If the packet is invalid, false is returned, otherwise true.
    pub fn push_byte(&mut self, byte: u8) -> (accepted: bool)
        requires
            old(self).wf(),
        ensures
            final(self).wf(),
            (Parsed {
                pending: final(self).pending(),
                offered: final(self).offered(),
                accepted,
            }) == parse_byte(old(self).pending(), old(self).offered(), byte),
            old(self).sent().grows_to(final(self).sent()),
    {
        proof {
            growing_may_be_nothing(self.sent());
        }
        let ghost before = self.buffer@;
        self.buffer.push(byte);
        proof {
            if before.len() > 0 {
                assert(self.buffer@.take(before.len() as int) =~= before);
                prefix_shows_fields(self.buffer@, before.len() as int);
            }
        }

        if self.buffer.len() >= MIN_HEADER_LEN {
            if self.expected_header_len == 0 {
                self.expected_header_len = ipv4::header_len(self.buffer.as_slice());
                if (self.expected_header_len as usize) < MIN_HEADER_LEN {
                    self.clear();
                    return false;
                }
            }
        }
        if self.buffer.len() == self.expected_header_len as usize {
            let total_length: usize = ipv4::total_len(self.buffer.as_slice()) as usize;
            if !ipv4::verify_checksum(self.buffer.as_slice()) || total_length
                < self.expected_header_len as usize || total_length > MAX_PACKET_SIZE {
                self.clear();
                return false;
            }
            self.expected_len = Some(total_length + CRC_SIZE);
        }
        if let Some(expected) = self.expected_len {
            if self.buffer.len() == expected {
                return self.process_and_send_packet();
            }
        }
        true
    }

    /// Pushes bytes into the parser, up to the first that shows that a packet is invalid.
    pub fn push_slice(&mut self, bytes: &[u8])
        requires
            old(self).wf(),
        ensures
            final(self).wf(),
            ({
                let parsed = parse_bytes(old(self).pending(), old(self).offered(), bytes@);
                final(self).pending() == parsed.pending && final(self).offered() == parsed.offered
            }),
            old(self).sent().grows_to(final(self).sent()),
    {
        proof {
            growing_may_be_nothing(self.sent());
        }
        let mut at: usize = 0;
        assert(bytes@.skip(0) =~= bytes@);
        while at < bytes.len()
            invariant
                at <= bytes@.len(),
                self.wf(),
                parse_bytes(self.pending(), self.offered(), bytes@.skip(at as int)) == parse_bytes(
                    old(self).pending(),
                    old(self).offered(),
                    bytes@,
                ),
                old(self).sent().grows_to(self.sent()),
            decreases bytes.len() - at,
        {
            let ghost before = self.sent();
            proof {
                assert(bytes@.skip(at as int).skip(1) =~= bytes@.skip(at + 1));
            }
            let accepted = self.push_byte(bytes[at]);
            proof {
                growing_adds_up(old(self).sent(), before, self.sent());
            }
            if !accepted {
                return;
            }
            at += 1;
        }
    }

    /// Hands a complete packet to the channel, with its checksum, if it is valid, says whether it
    /// is, and forgets it.
    fn process_and_send_packet(&mut self) -> (valid: bool)
        requires
            old(self).buffer@.len() >= CRC_SIZE,
        ensures
            final(self).wf(),
            final(self).pending() == Seq::<u8>::empty(),
            valid == lengths_ok(old(self).buffer@.take(old(self).buffer@.len() - CRC_SIZE)),
            final(self).offered() == if valid {
                old(self).offered().push(old(self).buffer@)
            } else {
                old(self).offered()
            },
            old(self).sent().grows_to(final(self).sent()),
    {
        proof {
            growing_may_be_nothing(self.sent());
        }
        let packet_len: usize = self.buffer.len() - CRC_SIZE;
        let packet = vstd::slice::slice_subrange(self.buffer.as_slice(), 0, packet_len);
        assert(packet@ =~= self.buffer@.take(self.buffer@.len() - CRC_SIZE));
        let valid = ipv4::new_checked(packet);
        if valid {
            let mut packet: Vec<u8> = Vec::new();
            std::mem::swap(&mut packet, &mut self.buffer);
            let _ = self.sender.try_send(packet);
        }
        self.clear();
        valid
    }
}

/// What the bus carries for a packet: the packet and its checksum.
pub open spec fn bus_frame(packet: Seq<u8>, crc: u16) -> Seq<u8> {
    packet + crate::wire::bytes::le16_bytes(crc)
}

/// Whether a packet can be taken from the bus: it has a header with a right checksum, and as many
/// bytes as its header says, of which there are not too many.
pub open spec fn is_deliverable(packet: Seq<u8>) -> bool {
    &&& has_header(packet)
    &&& header_acceptable(packet)
    &&& lengths_ok(packet)
    &&& packet.len() == total_len_field(packet)
}

/// The fields that a packet's beginning shows are those of the packet.
proof fn prefix_shows_fields(packet: Seq<u8>, n: int)
    requires
        0 < n <= packet.len(),
    ensures
        header_len_field(packet.take(n)) == header_len_field(packet),
        n >= 4 ==> total_len_field(packet.take(n)) == total_len_field(packet),
        n >= header_len_field(packet) ==> header_checksum_ok(packet.take(n)) == header_checksum_ok(
            packet,
        ),
{
    if n >= header_len_field(packet) {
        let len = header_len_field(packet);
        assert(packet.take(n).take(len) =~= packet.take(len));
    }
}

/// Once a parser holds the first `n` bytes of what the bus carries for a packet, the rest of it
/// makes the parser deliver the packet.
proof fn rest_is_delivered(packet: Seq<u8>, crc: u16, sent: Seq<Seq<u8>>, n: int)
    requires
        is_deliverable(packet),
        0 <= n < bus_frame(packet, crc).len(),
    ensures
        parse_bytes(bus_frame(packet, crc).take(n), sent, bus_frame(packet, crc).skip(n)) == (Parsed {
            pending: Seq::<u8>::empty(),
            offered: sent.push(bus_frame(packet, crc)),
            accepted: true,
        }),
    decreases packet.len() + 2 - n,
{
    let frame = bus_frame(packet, crc);
    let rest = frame.skip(n);
    assert(frame.take(n).push(rest[0]) =~= frame.take(n + 1));
    assert(rest.skip(1) =~= frame.skip(n + 1));
    assert(frame.take(packet.len() as int) =~= packet);
    prefix_shows_fields(frame, n + 1);
    prefix_shows_fields(frame, packet.len() as int);
    let next = parse_byte(frame.take(n), sent, rest[0]);
    if n + 1 < frame.len() {
        assert(next.pending == frame.take(n + 1));
        rest_is_delivered(packet, crc, sent, n + 1);
    } else {
        assert(frame.take(n + 1) =~= frame);
        assert(frame.take(frame.len() - CRC_SIZE) =~= packet);
        assert(next.offered == sent.push(frame));
        assert(parse_bytes(next.pending, next.offered, rest.skip(1)) == next);
    }
}

/// What the bus carries for a packet that can be taken from it makes a parser that holds nothing
/// hand exactly that to its channel, whatever the checksum, and hold nothing again.
pub proof fn bus_frame_is_delivered(packet: Seq<u8>, crc: u16, sent: Seq<Seq<u8>>)
    requires
        is_deliverable(packet),
    ensures
        parse_bytes(Seq::empty(), sent, bus_frame(packet, crc)) == (Parsed {
            pending: Seq::<u8>::empty(),
            offered: sent.push(bus_frame(packet, crc)),
            accepted: true,
        }),
{
    let frame = bus_frame(packet, crc);
    assert(frame.take(0) =~= Seq::<u8>::empty());
    assert(frame.skip(0) =~= frame);
    rest_is_delivered(packet, crc, sent, 0);
}

/// A parser waits for a packet of at most the longest length, which it has not reached yet, and it
/// waits for nothing before it has seen enough to know.
pub proof fn expected_lengths_are_known_and_not_reached(parser: Ipv4PacketParser)
    requires
        parser.wf(),
    ensures
        parser.pending().len() < MIN_HEADER_LEN ==> parser.spec_expected_header_len() == 0
            && parser.spec_expected_len() is None,
        parser.spec_expected_header_len() != 0 ==> parser.spec_expected_header_len()
            == header_len_field(parser.pending()) && parser.spec_expected_header_len()
            >= MIN_HEADER_LEN,
        parser.spec_expected_len() matches Some(len) ==> {
            &&& parser.spec_expected_header_len() <= parser.pending().len()
            &&& len == total_len_field(parser.pending()) + CRC_SIZE
            &&& len <= MAX_PACKET_SIZE + CRC_SIZE
            &&& parser.pending().len() < len
        },
        parser.pending().len() < MAX_PACKET_SIZE + CRC_SIZE,
{
}

/// Whatever comes from the bus, what a parser holds begins a packet that is not complete yet, and
/// is shorter than the longest packet with its checksum.
pub proof fn pending_stays_short(pending: Seq<u8>, sent: Seq<Seq<u8>>, bytes: Seq<u8>)
    requires
        is_pending(pending),
    ensures
        is_pending(parse_bytes(pending, sent, bytes).pending),
        parse_bytes(pending, sent, bytes).pending.len() < MAX_PACKET_SIZE + CRC_SIZE,
    decreases bytes.len(),
{
    if bytes.len() > 0 {
        let next = parse_byte(pending, sent, bytes[0]);
        let grown = pending.push(bytes[0]);
        if pending.len() > 0 {
            assert(grown.take(pending.len() as int) =~= pending);
            prefix_shows_fields(grown, pending.len() as int);
        }
        assert(is_pending(next.pending));
        if next.accepted {
            pending_stays_short(next.pending, next.offered, bytes.skip(1));
        }
    }
}

/// An invalid packet leaves a parser as new, and nothing of it goes to the channel.
pub proof fn invalid_packet_is_dropped(pending: Seq<u8>, sent: Seq<Seq<u8>>, byte: u8)
    requires
        !parse_byte(pending, sent, byte).accepted,
    ensures
        parse_byte(pending, sent, byte).pending == Seq::<u8>::empty(),
        parse_byte(pending, sent, byte).offered == sent,
{
}

/// It does not matter where the bytes are cut: what is heard in two parts is parsed as if it had
/// been heard at once, as long as the first part holds no invalid packet.
pub proof fn parts_parse_like_the_whole(
    pending: Seq<u8>,
    sent: Seq<Seq<u8>>,
    first: Seq<u8>,
    second: Seq<u8>,
)
    requires
        parse_bytes(pending, sent, first).accepted,
    ensures
        parse_bytes(pending, sent, first + second) == parse_bytes(
            parse_bytes(pending, sent, first).pending,
            parse_bytes(pending, sent, first).offered,
            second,
        ),
    decreases first.len(),
{
    if first.len() == 0 {
        assert(first + second =~= second);
    } else {
        let next = parse_byte(pending, sent, first[0]);
        assert((first + second).skip(1) =~= first.skip(1) + second);
        parts_parse_like_the_whole(next.pending, next.offered, first.skip(1), second);
    }
}

/// What the bus carries for packets that follow each other.
pub open spec fn bus_stream(packets: Seq<(Seq<u8>, u16)>) -> Seq<u8>
    decreases packets.len(),
{
    if packets.len() == 0 {
        Seq::empty()
    } else {
        bus_stream(packets.drop_last()) + bus_frame(packets.last().0, packets.last().1)
    }
}

/// Packets that follow each other on the bus are delivered one by one, in order, none of them lost.
pub proof fn bus_stream_is_delivered(packets: Seq<(Seq<u8>, u16)>, sent: Seq<Seq<u8>>)
    requires
        forall|i: int| 0 <= i < packets.len() ==> is_deliverable(#[trigger] packets[i].0),
    ensures
        parse_bytes(Seq::empty(), sent, bus_stream(packets)) == (Parsed {
            pending: Seq::<u8>::empty(),
            offered: sent + packets.map_values(|p: (Seq<u8>, u16)| bus_frame(p.0, p.1)),
            accepted: true,
        }),
    decreases packets.len(),
{
    let frames = packets.map_values(|p: (Seq<u8>, u16)| bus_frame(p.0, p.1));
    if packets.len() == 0 {
        assert(sent + frames =~= sent);
    } else {
        let before = packets.drop_last();
        let last = packets.last();
        let earlier = before.map_values(|p: (Seq<u8>, u16)| bus_frame(p.0, p.1));
        bus_stream_is_delivered(before, sent);
        assert(is_deliverable(packets[packets.len() - 1].0));
        bus_frame_is_delivered(last.0, last.1, sent + earlier);
        parts_parse_like_the_whole(
            Seq::empty(),
            sent,
            bus_stream(before),
            bus_frame(last.0, last.1),
        );
        assert((sent + earlier).push(bus_frame(last.0, last.1)) =~= sent + frames);
    }
}

/// Every packet whose header says how long header and packet are, and says it rightly, whose header
/// has 20 bytes or more and sums up to all ones, and which has no more than 2000 bytes, is handed to
/// the channel with the two bytes behind it, whatever else it holds: whichever its protocol, its
/// addresses, its other header fields and its payload.
pub proof fn valid_packet_is_delivered(packet: Seq<u8>, low: u8, high: u8, sent: Seq<Seq<u8>>)
    requires
        packet.len() >= 20,
        20 <= packet[0] % 16 * 4 <= packet.len(),
        packet.len() == packet[2] * 256 + packet[3],
        packet.len() <= 2000,
        word_sum(packet.take(packet[0] % 16 * 4)) > 0,
        word_sum(packet.take(packet[0] % 16 * 4)) % 0xffff == 0,
    ensures
        parse_bytes(Seq::empty(), sent, packet + seq![low, high]) == (Parsed {
            pending: Seq::<u8>::empty(),
            offered: sent.push(packet + seq![low, high]),
            accepted: true,
        }),
{
    let crc = (low + high * 256) as u16;
    assert(crate::wire::bytes::le16_bytes(crc) =~= seq![low, high]);
    bus_frame_is_delivered(packet, crc, sent);
}

/// The rest of such a packet makes a parser that has its beginning hand it on.
pub proof fn rest_of_valid_packet_is_delivered(
    packet: Seq<u8>,
    low: u8,
    high: u8,
    sent: Seq<Seq<u8>>,
    n: int,
)
    requires
        packet.len() >= 20,
        20 <= packet[0] % 16 * 4 <= packet.len(),
        packet.len() == packet[2] * 256 + packet[3],
        packet.len() <= 2000,
        word_sum(packet.take(packet[0] % 16 * 4)) > 0,
        word_sum(packet.take(packet[0] % 16 * 4)) % 0xffff == 0,
        0 <= n < packet.len() + 2,
    ensures
        ({
            let frame = packet + seq![low, high];
            parse_bytes(frame.take(n), sent, frame.skip(n)) == (Parsed {
                pending: Seq::<u8>::empty(),
                offered: sent.push(frame),
                accepted: true,
            })
        }),
{
    let crc = (low + high * 256) as u16;
    assert(crate::wire::bytes::le16_bytes(crc) =~= seq![low, high]);
    rest_is_delivered(packet, crc, sent, n);
}

/// Before the end of a header, and before the shortest length of one, bytes are only collected.
proof fn header_is_collected(header: Seq<u8>, following: Seq<u8>, sent: Seq<Seq<u8>>, n: int)
    requires
        header.len() >= 20,
        header[0] % 16 * 4 < 20 ==> header.len() == 20,
        header[0] % 16 * 4 >= 20 ==> header.len() == header[0] % 16 * 4,
        0 <= n < header.len(),
    ensures
        parse_bytes(Seq::empty(), sent, header + following) == parse_bytes(
            header.take(n),
            sent,
            header.skip(n) + following,
        ),
    decreases n,
{
    if n == 0 {
        assert(header.take(0) =~= Seq::<u8>::empty());
        assert(header.skip(0) =~= header);
    } else {
        header_is_collected(header, following, sent, n - 1);
        let rest = header.skip(n - 1) + following;
        assert(rest[0] == header[n - 1]);
        assert(rest.skip(1) =~= header.skip(n) + following);
        assert(header.take(n - 1).push(rest[0]) =~= header.take(n));
        let next = parse_byte(header.take(n - 1), sent, rest[0]);
        assert(header.take(n)[0] == header[0]);
        assert(next == (Parsed { pending: header.take(n), offered: sent, accepted: true }));
    }
}

/// A header of less than 20 bytes, one that does not sum up to all ones, one that is longer than
/// its packet and one of a packet of more than 2000 bytes are rejected when they are there, and not
/// before: the parser is left as new, nothing goes to the channel, and what follows is dropped.
pub proof fn invalid_header_is_rejected(
    header: Seq<u8>,
    following: Seq<u8>,
    sent: Seq<Seq<u8>>,
)
    requires
        header.len() >= 20,
        ({
            let len = header[0] % 16 * 4;
            let total_len = header[2] * 256 + header[3];
            let sum = word_sum(header);
            ||| len < 20 && header.len() == 20
            ||| len == header.len() && (sum == 0 || sum % 0xffff != 0 || total_len < len
                || total_len > 2000)
        }),
    ensures
        parse_bytes(Seq::empty(), sent, header + following) == (Parsed {
            pending: Seq::<u8>::empty(),
            offered: sent,
            accepted: false,
        }),
        forall|n: int|
            0 <= n < header.len() ==> #[trigger] parse_bytes(Seq::empty(), sent, header.take(n))
                == (Parsed { pending: header.take(n), offered: sent, accepted: true }),
{
    let n = header.len() - 1;
    header_is_collected(header, following, sent, n);
    assert(header.take(header.len() as int) =~= header);
    word_sum_is_not_negative(header);
    assert(header.take(n).push((header.skip(n) + following)[0]) =~= header);
    assert forall|n: int| 0 <= n < header.len() implies #[trigger] parse_bytes(
        Seq::empty(),
        sent,
        header.take(n),
    ) == (Parsed { pending: header.take(n), offered: sent, accepted: true }) by {
        beginning_is_collected(header, sent, n);
    }
}

/// A sum of words is not negative.
proof fn word_sum_is_not_negative(bytes: Seq<u8>)
    ensures
        word_sum(bytes) >= 0,
    decreases bytes.len(),
{
    if bytes.len() >= 2 {
        word_sum_is_not_negative(bytes.skip(2));
    }
}

/// The beginning of a header is collected.
proof fn beginning_is_collected(header: Seq<u8>, sent: Seq<Seq<u8>>, n: int)
    requires
        header.len() >= 20,
        header[0] % 16 * 4 < 20 ==> header.len() == 20,
        header[0] % 16 * 4 >= 20 ==> header.len() == header[0] % 16 * 4,
        0 <= n < header.len(),
    ensures
        parse_bytes(Seq::empty(), sent, header.take(n)) == (Parsed {
            pending: header.take(n),
            offered: sent,
            accepted: true,
        }),
    decreases n,
{
    if n == 0 {
        assert(header.take(0) =~= Seq::<u8>::empty());
    } else {
        let before = header.take(n - 1);
        let last = seq![header[n - 1]];
        beginning_is_collected(header, sent, n - 1);
        parts_parse_like_the_whole(Seq::empty(), sent, before, last);
        assert(before + last =~= header.take(n));
        assert(before.push(last[0]) =~= header.take(n));
        assert(header.take(n)[0] == header[0]);
        let next = parse_byte(before, sent, last[0]);
        assert(next == (Parsed { pending: header.take(n), offered: sent, accepted: true }));
        assert(last.skip(1) =~= Seq::<u8>::empty());
        assert(parse_bytes(before, sent, last) == parse_bytes(
            next.pending,
            next.offered,
            last.skip(1),
        ));
    }
}

/// Nothing but valid packets goes to the channel, each as it came from the bus with the two bytes
/// behind it, and nothing that went there before is taken back: what a parser that starts with
/// nothing hands on has a header of 20 bytes or more that sums up to all ones, is as long as its
/// header says and two bytes more, and stands in what was heard.
pub proof fn only_valid_packets_are_delivered(sent: Seq<Seq<u8>>, bytes: Seq<u8>)
    ensures
        ({
            let offered = parse_bytes(Seq::empty(), sent, bytes).offered;
            &&& offered.len() >= sent.len()
            &&& offered.take(sent.len() as int) == sent
            &&& forall|i: int|
                sent.len() <= i < offered.len() ==> {
                    let frame = #[trigger] offered[i];
                    let len = frame[0] % 16 * 4;
                    &&& 22 <= frame.len() <= 2002
                    &&& 20 <= len <= frame.len() - 2
                    &&& frame[2] * 256 + frame[3] == frame.len() - 2
                    &&& word_sum(frame.take(len)) > 0
                    &&& word_sum(frame.take(len)) % 0xffff == 0
                    &&& exists|at: int|
                        0 <= at <= bytes.len() - frame.len() && #[trigger] bytes.subrange(
                            at,
                            at + frame.len(),
                        ) == frame
                }
        }),
{
    assert(Seq::<u8>::empty() + bytes =~= bytes);
    offers_stand_in_the_stream(Seq::empty(), sent, bytes);
}

/// What a parser that holds `pending` hands on is valid and stands in what it holds and hears.
proof fn offers_stand_in_the_stream(pending: Seq<u8>, sent: Seq<Seq<u8>>, bytes: Seq<u8>)
    requires
        is_pending(pending),
    ensures
        ({
            let offered = parse_bytes(pending, sent, bytes).offered;
            let stream = pending + bytes;
            &&& offered.len() >= sent.len()
            &&& offered.take(sent.len() as int) == sent
            &&& forall|i: int|
                sent.len() <= i < offered.len() ==> {
                    let frame = #[trigger] offered[i];
                    let len = frame[0] % 16 * 4;
                    &&& 22 <= frame.len() <= 2002
                    &&& 20 <= len <= frame.len() - 2
                    &&& frame[2] * 256 + frame[3] == frame.len() - 2
                    &&& word_sum(frame.take(len)) > 0
                    &&& word_sum(frame.take(len)) % 0xffff == 0
                    &&& exists|at: int|
                        0 <= at <= stream.len() - frame.len() && #[trigger] stream.subrange(
                            at,
                            at + frame.len(),
                        ) == frame
                }
        }),
    decreases bytes.len(),
{
    let stream = pending + bytes;
    if bytes.len() == 0 {
        assert(sent.take(sent.len() as int) =~= sent);
    } else {
        let grown = pending.push(bytes[0]);
        let next = parse_byte(pending, sent, bytes[0]);
        let rest = bytes.skip(1);
        if pending.len() > 0 {
            assert(grown.take(pending.len() as int) =~= pending);
            prefix_shows_fields(grown, pending.len() as int);
        }
        assert(is_pending(next.pending));
        let cut = stream.len() - (next.pending + rest).len();
        assert(stream.subrange(0, grown.len() as int) =~= grown);
        assert(next.offered.take(sent.len() as int) =~= sent);
        if next.accepted {
            offers_stand_in_the_stream(next.pending, next.offered, rest);
            let offered = parse_bytes(pending, sent, bytes).offered;
            let later = next.pending + rest;
            assert(later =~= stream.skip(cut));
            assert(offered.take(sent.len() as int) =~= sent) by {
                assert(offered.take(sent.len() as int) =~= offered.take(
                    next.offered.len() as int,
                ).take(sent.len() as int));
            }
            assert forall|i: int| sent.len() <= i < offered.len() implies {
                let frame = #[trigger] offered[i];
                let len = frame[0] % 16 * 4;
                &&& 22 <= frame.len() <= 2002
                &&& 20 <= len <= frame.len() - 2
                &&& frame[2] * 256 + frame[3] == frame.len() - 2
                &&& word_sum(frame.take(len)) > 0
                &&& word_sum(frame.take(len)) % 0xffff == 0
                &&& exists|at: int|
                    0 <= at <= stream.len() - frame.len() && #[trigger] stream.subrange(
                        at,
                        at + frame.len(),
                    ) == frame
            } by {
                let frame = offered[i];
                if i < next.offered.len() {
                    assert(offered.take(next.offered.len() as int)[i] == frame);
                    assert(frame == grown);
                    assert(stream.subrange(0int, 0int + frame.len()) == frame);
                } else {
                    let at = choose|at: int|
                        0 <= at <= later.len() - frame.len() && #[trigger] later.subrange(
                            at,
                            at + frame.len(),
                        ) == frame;
                    assert(stream.subrange(cut + at, cut + at + frame.len()) =~= frame);
                }
            }
        }
    }
}

/// What the bus carries for a packet is the packet and two bytes more, of which the first is the
/// low half of the checksum and the second the high half.
pub proof fn bus_frame_layout(packet: Seq<u8>, crc: u16)
    ensures
        ({
            let frame = bus_frame(packet, crc);
            &&& frame.len() == packet.len() + 2
            &&& frame.take(packet.len() as int) == packet
            &&& frame[packet.len() as int] + 256 * frame[packet.len() as int + 1] == crc
        }),
{
    assert(bus_frame(packet, crc).take(packet.len() as int) =~= packet);
}

} // verus!
