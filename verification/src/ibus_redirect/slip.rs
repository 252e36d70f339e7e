//! Packets on a serial line, each between two end marks.

use serial_line_ip::Decoder;
use vstd::prelude::*;

verus! {

/// The mark before and after a packet.
pub const END: u8 = 0xc0;

/// What stands before a byte that stands for another.
pub const ESC: u8 = 0xdb;

/// What stands for the end mark in a packet, after an `ESC`.
pub const ESC_END: u8 = 0xdc;

/// What stands for an `ESC` in a packet, after another.
pub const ESC_ESC: u8 = 0xdd;

/// How many bytes of a packet are decoded at once.
pub const DECODE_BUFFER_SIZE: usize = 4000;

/// How many bytes a packet can take on the line.
pub const ENCODE_BUFFER_SIZE: usize = 2000;

/// What can go wrong on a serial line.
#[derive(Clone, Copy, Debug, PartialEq, Eq, Structural)]
pub enum SlipError {
    /// There is no room for the first end mark.
    NoOutputSpaceForHeader,
    /// There is no room for the last end mark.
    NoOutputSpaceForEndByte,
    /// A packet does not begin with an end mark.
    BadHeaderDecode,
    /// An `ESC` does not stand before what it can stand before.
    BadEscapeSequenceDecode,
}

/// The decoder of a serial line, `serial_line_ip::Decoder`.
#[verifier::external_type_specification]
#[verifier::external_body]
pub struct ExDecoder(Decoder);

/// How a byte of a packet is written.
pub open spec fn escaped(byte: u8) -> Seq<u8> {
    if byte == END {
        seq![ESC, ESC_END]
    } else if byte == ESC {
        seq![ESC, ESC_ESC]
    } else {
        seq![byte]
    }
}

/// How the bytes of a packet are written.
pub open spec fn escape_all(bytes: Seq<u8>) -> Seq<u8>
    decreases bytes.len(),
{
    if bytes.len() == 0 {
        Seq::empty()
    } else {
        escaped(bytes[0]) + escape_all(bytes.skip(1))
    }
}

/// What the line carries for a packet.
pub open spec fn line_frame(packet: Seq<u8>) -> Seq<u8> {
    seq![END] + escape_all(packet) + seq![END]
}

/// The bytes that a decoder has read and still has to keep in mind: nothing before a packet, the
/// mark that began it, and an `ESC` whose other byte has not come yet.
pub uninterp spec fn held(decoder: Decoder) -> Seq<u8>;

/// Whether a decoder that holds `before` and reads `read` writes `out` and holds `after`. What it
/// read since the mark that began the packet is how `out` is written, and then the mark that ends
/// the packet, or else an `ESC` that it still holds, if any.
pub open spec fn decodes(
    before: Seq<u8>,
    read: Seq<u8>,
    out: Seq<u8>,
    end: bool,
    after: Seq<u8>,
) -> bool {
    &&& after == seq![END] || after == seq![END, ESC]
    &&& end ==> after == seq![END]
    &&& before + read == seq![END] + escape_all(out) + if end {
        seq![END]
    } else {
        after.skip(1)
    }
}

/// Whether a decoder that holds `before` finds no mark at the beginning of a packet.
pub open spec fn bad_header(before: Seq<u8>, input: Seq<u8>) -> bool {
    before.len() == 0 && (input.len() == 0 || input[0] != END)
}

/// Whether `line` begins with a mark, how `body` is written, and an `ESC` before a byte that it
/// cannot stand before.
pub open spec fn escapes_badly(line: Seq<u8>, body: Seq<u8>) -> bool {
    let at: int = 1 + escape_all(body).len() as int;
    &&& line.len() >= at + 2
    &&& line.take(at) == seq![END] + escape_all(body)
    &&& line[at] == ESC
    &&& line[at + 1] != ESC_END
    &&& line[at + 1] != ESC_ESC
}

/// Whether a decoder that holds `before` comes to a bad escape sequence before it has written
/// `room` bytes.
pub open spec fn bad_escape(before: Seq<u8>, input: Seq<u8>, room: int) -> bool {
    exists|body: Seq<u8>| #[trigger] escapes_badly(before + input, body) && body.len() < room
}

/// A decoder that holds nothing: `serial_line_ip`'s `Decoder::new`.
#[verifier::external_body]
fn new_decoder() -> (decoder: Decoder)
    ensures
        held(decoder) == Seq::<u8>::empty(),
{
    Decoder::new()
}

/// Decodes some of a packet: `serial_line_ip`'s `Decoder::decode`. It reads until the mark that
/// ends the packet, the end of the input or the end of the output, and says how much it read and
/// wrote and whether the packet ended; or it fails, on a missing mark or a bad escape sequence.
/// Once the output is full it reads nothing more. What it holds after a failure is not said.
#[verifier::external_body]
fn decode(decoder: &mut Decoder, input: &[u8], output: &mut Vec<u8>) -> (result: Result<
    (usize, usize, bool),
    SlipError,
>)
    ensures
        final(output)@.len() == old(output)@.len(),
        result is Ok <==> !bad_header(held(*old(decoder)), input@) && !bad_escape(
            held(*old(decoder)),
            input@,
            old(output)@.len() as int,
        ),
        match result {
            Ok((read, written, end)) => {
                &&& read <= input@.len()
                &&& written <= old(output)@.len()
                &&& decodes(
                    held(*old(decoder)),
                    input@.take(read as int),
                    final(output)@.take(written as int),
                    end,
                    held(*final(decoder)),
                )
                &&& end || read == input@.len() || written == old(output)@.len()
                &&& 0 < written == old(output)@.len() ==> !end && held(*final(decoder)) == seq![END]
            },
            Err(error) => error == if bad_header(held(*old(decoder)), input@) {
                SlipError::BadHeaderDecode
            } else {
                SlipError::BadEscapeSequenceDecode
            },
        },
{
    match decoder.decode(input, output.as_mut_slice()) {
        Ok((read, written, end)) => Ok((read, written.len(), end)),
        Err(serial_line_ip::Error::NoOutputSpaceForHeader) => Err(SlipError::NoOutputSpaceForHeader),
        Err(serial_line_ip::Error::NoOutputSpaceForEndByte) => Err(SlipError::NoOutputSpaceForEndByte),
        Err(serial_line_ip::Error::BadHeaderDecode) => Err(SlipError::BadHeaderDecode),
        Err(serial_line_ip::Error::BadEscapeSequenceDecode) => Err(SlipError::BadEscapeSequenceDecode),
    }
}

/// What becomes of the bytes on the line.
#[derive(Debug, PartialEq, Eq)]
pub enum SlipEvent {
    /// There are none to read.
    Idle,
    /// They were read, and the packet goes on.
    Split,
    /// They were read up to the end of this packet.
    Packet(Vec<u8>),
    /// They make no sense, and have been dropped.
    Failed(SlipError),
}

/// What becomes of the bytes on the line, as a mathematical value.
pub enum LineEvent {
    /// There are none to read.
    Idle,
    /// The packet goes on.
    Split,
    /// A packet ended.
    Packet(Seq<u8>),
    /// They have been dropped.
    Failed(SlipError),
}

impl View for SlipEvent {
    type V = LineEvent;

    open spec fn view(&self) -> LineEvent {
        match self {
            SlipEvent::Idle => LineEvent::Idle,
            SlipEvent::Split => LineEvent::Split,
            SlipEvent::Packet(packet) => LineEvent::Packet(packet@),
            SlipEvent::Failed(error) => LineEvent::Failed(*error),
        }
    }
}

/// Takes packets from the line.
pub struct SlipReceiver {
    decoder: Decoder,
    decode_buffer: Vec<u8>,
    state_buffer: Vec<u8>,
    next_packet: Vec<u8>,
}

/// What a receiver has.
#[verifier::ext_equal]
pub struct Receiver {
    /// The bytes that its decoder still has to keep in mind.
    pub held: Seq<u8>,
    /// The bytes that were heard and not read yet.
    pub unread: Seq<u8>,
    /// What the packet begins with that has not ended yet.
    pub packet: Seq<u8>,
}

/// A receiver between two packets, with bytes to read.
pub open spec fn between_packets(unread: Seq<u8>) -> Receiver {
    Receiver { held: Seq::empty(), unread, packet: Seq::empty() }
}

/// Whether a receiver reads `read` bytes, among them `out`, and has `after`.
pub open spec fn reads(
    before: Receiver,
    read: int,
    out: Seq<u8>,
    end: bool,
    held: Seq<u8>,
    event: LineEvent,
    after: Receiver,
) -> bool {
    &&& 0 <= read <= before.unread.len()
    &&& out.len() <= DECODE_BUFFER_SIZE
    &&& decodes(before.held, before.unread.take(read), out, end, held)
    &&& end || read == before.unread.len() || out.len() == DECODE_BUFFER_SIZE
    &&& out.len() == DECODE_BUFFER_SIZE ==> !end && held == seq![END]
    &&& if end {
        &&& event == LineEvent::Packet(before.packet + out)
        &&& after == between_packets(before.unread.skip(read))
    } else {
        &&& event == LineEvent::Split
        &&& after == Receiver {
            held,
            unread: before.unread.skip(read),
            packet: before.packet + out,
        }
    }
}

/// Whether a receiver that has `before` comes to `event` and has `after`. It reads to the end of
/// the packet, or as far as it can, and adds what it read to the packet. On an error it drops all
/// that it has.
pub open spec fn step(before: Receiver, event: LineEvent, after: Receiver) -> bool {
    if before.unread.len() == 0 {
        event == LineEvent::Idle && after == before
    } else if bad_header(before.held, before.unread) {
        event == LineEvent::Failed(SlipError::BadHeaderDecode) && after == between_packets(Seq::empty())
    } else if bad_escape(before.held, before.unread, DECODE_BUFFER_SIZE as int) {
        event == LineEvent::Failed(SlipError::BadEscapeSequenceDecode) && after == between_packets(
            Seq::empty(),
        )
    } else {
        exists|read: int, out: Seq<u8>, end: bool, held: Seq<u8>| #[trigger]
            reads(before, read, out, end, held, event, after)
    }
}

impl View for SlipReceiver {
    type V = Receiver;

    closed spec fn view(&self) -> Receiver {
        Receiver {
            held: held(self.decoder),
            unread: self.state_buffer@,
            packet: self.next_packet@,
        }
    }
}

impl SlipReceiver {
    /// The decoder has room to write.
    pub closed spec fn wf(&self) -> bool {
        self.decode_buffer@.len() == DECODE_BUFFER_SIZE
    }

    /// A receiver that has heard nothing.
    pub fn new() -> (receiver: Self)
        ensures
            receiver.wf(),
            receiver@ == between_packets(Seq::empty()),
    {
        let receiver = Self {
            decoder: new_decoder(),
            decode_buffer: vec![0; DECODE_BUFFER_SIZE],
            state_buffer: Vec::new(),
            next_packet: Vec::new(),
        };
        assert(receiver@ =~= between_packets(Seq::empty()));
        receiver
    }

    /// Hears bytes.
    pub fn hear(&mut self, bytes: &[u8])
        requires
            old(self).wf(),
        ensures
            final(self).wf(),
            final(self)@ == (Receiver { unread: old(self)@.unread + bytes@, ..old(self)@ }),
    {
        self.state_buffer.extend_from_slice(bytes);
        assert(self.state_buffer@ =~= old(self)@.unread + bytes@);
    }

    /// Reads the bytes that were heard, up to the end of a packet.
    pub fn next(&mut self) -> (event: SlipEvent)
        requires
            old(self).wf(),
        ensures
            final(self).wf(),
            step(old(self)@, event@, final(self)@),
    {
        if self.state_buffer.is_empty() {
            return SlipEvent::Idle;
        }
        let ghost before = self@;
        match decode(&mut self.decoder, self.state_buffer.as_slice(), &mut self.decode_buffer) {
            Ok((read, written, end)) => {
                let ghost out = self.decode_buffer@.take(written as int);
                let ghost holds = held(self.decoder);
                let output = vstd::slice::slice_subrange(self.decode_buffer.as_slice(), 0, written);
                self.next_packet.extend_from_slice(output);
                assert(self.next_packet@ =~= before.packet + out);
                let unread = self.state_buffer.split_off(read);
                self.state_buffer = unread;
                assert(self.state_buffer@ =~= before.unread.skip(read as int));
                if end {
                    let mut packet: Vec<u8> = Vec::new();
                    std::mem::swap(&mut packet, &mut self.next_packet);
                    self.decoder = new_decoder();
                    assert(self@ =~= between_packets(before.unread.skip(read as int)));
                    assert(reads(
                        before,
                        read as int,
                        out,
                        end,
                        holds,
                        LineEvent::Packet(packet@),
                        self@,
                    ));
                    SlipEvent::Packet(packet)
                } else {
                    assert(reads(before, read as int, out, end, holds, LineEvent::Split, self@));
                    SlipEvent::Split
                }
            },
            Err(error) => {
                self.decoder = new_decoder();
                self.next_packet.clear();
                self.state_buffer.clear();
                assert(self@ =~= between_packets(Seq::empty()));
                SlipEvent::Failed(error)
            },
        }
    }
}

/// How many bytes a packet begins with that can be written into `room` bytes.
pub open spec fn fitting(packet: Seq<u8>, room: int) -> nat
    decreases packet.len(),
{
    if packet.len() == 0 || escaped(packet[0]).len() > room {
        0
    } else {
        1 + fitting(packet.skip(1), room - escaped(packet[0]).len())
    }
}

/// Writes a packet, after the mark that begins it: `serial_line_ip`'s `Encoder::encode` with a new
/// encoder. It stops at the first byte that there is no room for, and says how much of the packet
/// it read and how much it wrote; it fails if there is not even room for the mark.
#[verifier::external_body]
fn encode(packet: &[u8], output: &mut Vec<u8>) -> (result: Result<(usize, usize), SlipError>)
    ensures
        final(output)@.len() == old(output)@.len(),
        match result {
            Ok((read, written)) => {
                &&& old(output)@.len() > 0
                &&& read <= packet@.len()
                &&& written <= old(output)@.len()
                &&& final(output)@.take(written as int) == seq![END] + escape_all(
                    packet@.take(read as int),
                )
                &&& read == packet@.len() || old(output)@.len() - written < escaped(
                    packet@[read as int],
                ).len()
            },
            Err(error) => old(output)@.len() == 0 && error == SlipError::NoOutputSpaceForHeader,
        },
{
    match serial_line_ip::Encoder::new().encode(packet, output.as_mut_slice()) {
        Ok(totals) => Ok((totals.read, totals.written)),
        Err(serial_line_ip::Error::NoOutputSpaceForHeader) => Err(SlipError::NoOutputSpaceForHeader),
        Err(serial_line_ip::Error::NoOutputSpaceForEndByte) => Err(SlipError::NoOutputSpaceForEndByte),
        Err(serial_line_ip::Error::BadHeaderDecode) => Err(SlipError::BadHeaderDecode),
        Err(serial_line_ip::Error::BadEscapeSequenceDecode) => Err(SlipError::BadEscapeSequenceDecode),
    }
}

/// Writes the mark that ends a packet, at `at`: `serial_line_ip`'s `Encoder::finish`, which does
/// not look at what was encoded before. It says how much it wrote; it fails if there is no room.
#[verifier::external_body]
fn finish(output: &mut Vec<u8>, at: usize) -> (result: Result<usize, SlipError>)
    requires
        at <= old(output)@.len(),
    ensures
        match result {
            Ok(written) => {
                &&& at < old(output)@.len()
                &&& written == 1
                &&& final(output)@ == old(output)@.update(at as int, END)
            },
            Err(error) => {
                &&& at == old(output)@.len()
                &&& error == SlipError::NoOutputSpaceForEndByte
                &&& final(output)@ == old(output)@
            },
        },
{
    match serial_line_ip::Encoder::new().finish(&mut output[at..]) {
        Ok(totals) => Ok(totals.written),
        Err(serial_line_ip::Error::NoOutputSpaceForHeader) => Err(SlipError::NoOutputSpaceForHeader),
        Err(serial_line_ip::Error::NoOutputSpaceForEndByte) => Err(SlipError::NoOutputSpaceForEndByte),
        Err(serial_line_ip::Error::BadHeaderDecode) => Err(SlipError::BadHeaderDecode),
        Err(serial_line_ip::Error::BadEscapeSequenceDecode) => Err(SlipError::BadEscapeSequenceDecode),
    }
}

/// How many bytes fit is how many can be written before one that cannot.
proof fn fitting_is_where_writing_stops(packet: Seq<u8>, room: int, read: int)
    requires
        0 <= read <= packet.len(),
        escape_all(packet.take(read)).len() <= room,
        read == packet.len() || room - escape_all(packet.take(read)).len() < escaped(
            packet[read],
        ).len(),
    ensures
        read == fitting(packet, room),
    decreases packet.len(),
{
    if read > 0 {
        assert(packet.take(read).skip(1) =~= packet.skip(1).take(read - 1));
        fitting_is_where_writing_stops(
            packet.skip(1),
            room - escaped(packet[0]).len(),
            read - 1,
        );
    } else {
        assert(packet.take(0) =~= Seq::<u8>::empty());
    }
}

/// Encodes a packet for the line, as much of it as there is room for before the mark that ends it.
/// If there is then no room for the mark, nothing is sent.
pub fn encode_packet(packet: &[u8]) -> (result: Result<Vec<u8>, SlipError>)
    ensures
        ({
            let sent = packet@.take(fitting(packet@, ENCODE_BUFFER_SIZE - 1) as int);
            match result {
                Ok(line) => {
                    &&& line@ == line_frame(sent)
                    &&& line@.len() <= ENCODE_BUFFER_SIZE
                },
                Err(error) => {
                    &&& error == SlipError::NoOutputSpaceForEndByte
                    &&& line_frame(sent).len() > ENCODE_BUFFER_SIZE
                },
            }
        }),
{
    let mut encode_buffer: Vec<u8> = vec![0; ENCODE_BUFFER_SIZE];
    let (read, written) = match encode(packet, &mut encode_buffer) {
        Ok(totals) => totals,
        Err(error) => {
            return Err(error);
        },
    };
    let ghost body = encode_buffer@.take(written as int);
    proof {
        assert(body.len() == 1 + escape_all(packet@.take(read as int)).len());
        fitting_is_where_writing_stops(packet@, ENCODE_BUFFER_SIZE - 1, read as int);
    }
    let finish_byte: usize = match finish(&mut encode_buffer, written) {
        Ok(finish_byte) => finish_byte,
        Err(error) => {
            return Err(error);
        },
    };
    encode_buffer.truncate(written + finish_byte);
    assert(encode_buffer@ =~= body + seq![END]);
    Ok(encode_buffer)
}

/// A packet whose bytes all fit, as they are written, between two marks is encoded whole.
pub proof fn fitting_packet_is_encoded_whole(packet: Seq<u8>)
    requires
        line_frame(packet).len() <= ENCODE_BUFFER_SIZE,
    ensures
        packet.take(fitting(packet, ENCODE_BUFFER_SIZE - 1) as int) == packet,
{
    assert(packet.take(packet.len() as int) =~= packet);
    fitting_is_where_writing_stops(packet, ENCODE_BUFFER_SIZE - 1, packet.len() as int);
}

/// What one side encodes the other decodes: a receiver between packets that hears what the line
/// carries for a packet that was encoded whole, and something after it, delivers exactly that
/// packet and has what came after it left to read.
pub proof fn encoded_packet_is_delivered(
    packet: Seq<u8>,
    following: Seq<u8>,
    event: LineEvent,
    after: Receiver,
)
    requires
        line_frame(packet).len() <= ENCODE_BUFFER_SIZE,
        step(between_packets(line_frame(packet) + following), event, after),
    ensures
        event == LineEvent::Packet(packet),
        after == between_packets(following),
{
    let before = between_packets(line_frame(packet) + following);
    escape_begins(packet);
    assert(before.held + before.unread =~= line_frame(packet) + following);
    heard_packet_is_delivered(before, packet, following, event, after);
    assert(before.packet + packet =~= packet);
}

/// What is written has at least as many bytes, and begins with the first byte as it is written.
proof fn escape_begins(bytes: Seq<u8>)
    ensures
        escape_all(bytes).len() >= bytes.len(),
        bytes.len() > 0 ==> {
            &&& escape_all(bytes)[0] == escaped(bytes[0])[0]
            &&& escape_all(bytes)[0] != END
            &&& escaped(bytes[0]).len() == 2 ==> escape_all(bytes).len() >= 2 && escape_all(
                bytes,
            )[1] == escaped(bytes[0])[1]
        },
    decreases bytes.len(),
{
    if bytes.len() > 0 {
        escape_begins(bytes.skip(1));
    }
}

/// If two lines are the same, and begin with how two packets are written, then the shorter packet
/// is what the longer one begins with.
proof fn escape_aligns(short: Seq<u8>, long: Seq<u8>, after_short: Seq<u8>, after_long: Seq<u8>)
    requires
        short.len() <= long.len(),
        escape_all(short) + after_short == escape_all(long) + after_long,
    ensures
        short == long.take(short.len() as int),
        after_short == escape_all(long.skip(short.len() as int)) + after_long,
    decreases short.len(),
{
    if short.len() == 0 {
        assert(short =~= long.take(0));
        assert(long.skip(0) =~= long);
        assert(escape_all(short) + after_short =~= after_short);
    } else {
        let line = escape_all(short) + after_short;
        escape_begins(short);
        escape_begins(long);
        assert(line[0] == escaped(short[0])[0]);
        assert(line[0] == escaped(long[0])[0]);
        if escaped(short[0]).len() == 2 {
            assert(line[1] == escaped(short[0])[1]);
        }
        if escaped(long[0]).len() == 2 {
            assert(line[1] == escaped(long[0])[1]);
        }
        assert(short[0] == long[0]);
        let n = escaped(short[0]).len() as int;
        assert(line.skip(n) =~= escape_all(short.skip(1)) + after_short);
        assert(line.skip(n) =~= escape_all(long.skip(1)) + after_long);
        escape_aligns(short.skip(1), long.skip(1), after_short, after_long);
        assert(short =~= long.take(short.len() as int)) by {
            assert forall|i: int| 0 <= i < short.len() implies short[i] == long[i] by {
                if i > 0 {
                    assert(short.skip(1)[i - 1] == long.skip(1).take(short.len() - 1)[i - 1]);
                }
            }
        }
        assert(long.skip(1).skip(short.len() - 1) =~= long.skip(short.len() as int));
    }
}

/// What the line carries for a packet escapes nothing badly.
proof fn line_escapes_well(line: Seq<u8>, packet: Seq<u8>, coming: Seq<u8>, body: Seq<u8>)
    requires
        line + coming == line_frame(packet) + (line + coming).skip(line_frame(packet).len() as int),
        (line + coming).len() >= line_frame(packet).len(),
    ensures
        !escapes_badly(line, body),
{
    if escapes_badly(line, body) {
        let whole = line + coming;
        let rest = whole.skip(line_frame(packet).len() as int);
        let at = 1 + escape_all(body).len() as int;
        assert(whole.take(at) =~= line.take(at));
        assert(whole.skip(1) =~= escape_all(packet) + (seq![END] + rest));
        assert(whole.skip(1) =~= escape_all(body) + whole.skip(at)) by {
            assert(whole.take(at).skip(1) =~= escape_all(body));
        }
        if body.len() <= packet.len() {
            escape_aligns(body, packet, whole.skip(at), seq![END] + rest);
            let left = packet.skip(body.len() as int);
            escape_begins(left);
            assert(whole.skip(at)[0] == ESC);
            assert(whole.skip(at)[1] == line[at + 1]);
            if left.len() == 0 {
                assert((escape_all(left) + (seq![END] + rest))[0] == END);
            } else {
                assert((escape_all(left) + (seq![END] + rest))[0] == escape_all(left)[0]);
                assert((escape_all(left) + (seq![END] + rest))[1] == escape_all(left)[1]);
            }
        } else {
            escape_aligns(packet, body, seq![END] + rest, whole.skip(at));
            let left = body.skip(packet.len() as int);
            escape_begins(left);
            assert((seq![END] + rest)[0] == END);
            assert((escape_all(left) + whole.skip(at))[0] == escape_all(left)[0]);
        }
    }
}

/// If a line goes on with how `out` is written and `tail`, where `tail` is the mark that ends a
/// packet, or at most an `ESC`, and also with how a packet is written and the mark that ends it,
/// then `out` is what the packet begins with, and all of it if the mark was read.
proof fn decoded_is_packet(
    packet: Seq<u8>,
    following: Seq<u8>,
    out: Seq<u8>,
    end: bool,
    tail: Seq<u8>,
    unread: Seq<u8>,
)
    requires
        escape_all(out) + (tail + unread) == escape_all(packet) + (seq![END] + following),
        end ==> tail == seq![END],
        !end ==> tail == Seq::<u8>::empty() || tail == seq![ESC],
    ensures
        out.len() <= packet.len(),
        out == packet.take(out.len() as int),
        tail + unread == escape_all(packet.skip(out.len() as int)) + (seq![END] + following),
        end ==> out == packet && unread == following,
        !end ==> unread.len() > 0,
{
    if packet.len() < out.len() {
        escape_aligns(packet, out, seq![END] + following, tail + unread);
        let left = out.skip(packet.len() as int);
        escape_begins(left);
        assert((seq![END] + following)[0] == END);
        assert((escape_all(left) + (tail + unread))[0] == escape_all(left)[0]);
    }
    escape_aligns(out, packet, tail + unread, seq![END] + following);
    let left = packet.skip(out.len() as int);
    escape_begins(left);
    let rest = escape_all(left) + (seq![END] + following);
    if end {
        assert((tail + unread)[0] == END);
        if left.len() > 0 {
            assert(rest[0] == escape_all(left)[0]);
        }
        assert(out =~= packet);
        assert(unread =~= (tail + unread).skip(1));
        assert(following =~= rest.skip(1));
    } else {
        assert(rest[escape_all(left).len() as int] == END);
        if unread.len() == 0 {
            assert(tail + unread =~= tail);
        }
    }
}

/// A receiver that has heard all that the line carries for a packet delivers the packet, and goes
/// on with what follows it. The packet may have begun before: `rest_of_packet` is what is left of
/// it, after what the receiver has.
pub proof fn heard_packet_is_delivered(
    before: Receiver,
    rest_of_packet: Seq<u8>,
    following: Seq<u8>,
    event: LineEvent,
    after: Receiver,
)
    requires
        before.held + before.unread == line_frame(rest_of_packet) + following,
        before.unread.len() > 0,
        rest_of_packet.len() < DECODE_BUFFER_SIZE,
        step(before, event, after),
    ensures
        event == LineEvent::Packet(before.packet + rest_of_packet),
        after == between_packets(following),
{
    let line = before.held + before.unread;
    assert(line.skip(line_frame(rest_of_packet).len() as int) =~= following);
    assert(line + Seq::<u8>::empty() =~= line);
    assert(line[0] == END);
    assert forall|body: Seq<u8>| !#[trigger] escapes_badly(line, body) by {
        line_escapes_well(line, rest_of_packet, Seq::empty(), body);
    }
    let (read, out, end, holds) = choose|read: int, out: Seq<u8>, end: bool, holds: Seq<u8>|
        #[trigger] reads(before, read, out, end, holds, event, after);
    let tail = if end {
        seq![END]
    } else {
        holds.skip(1)
    };
    assert(holds.skip(1) =~= Seq::<u8>::empty() || holds.skip(1) =~= seq![ESC]);
    let unread = before.unread.skip(read);
    assert(line =~= (before.held + before.unread.take(read)) + unread);
    assert(line.skip(1) =~= escape_all(out) + (tail + unread));
    assert(line.skip(1) =~= escape_all(rest_of_packet) + (seq![END] + following));
    decoded_is_packet(rest_of_packet, following, out, end, tail, unread);
}

/// A receiver that has heard some of what the line carries for a packet, and not all, keeps what it
/// has read of the packet and waits: what is coming completes what is left of the packet.
pub proof fn heard_part_is_kept(
    before: Receiver,
    rest_of_packet: Seq<u8>,
    coming: Seq<u8>,
    event: LineEvent,
    after: Receiver,
) -> (still_left: Seq<u8>)
    requires
        before.held + before.unread + coming == line_frame(rest_of_packet),
        before.unread.len() > 0,
        coming.len() > 0,
        rest_of_packet.len() < DECODE_BUFFER_SIZE,
        step(before, event, after),
    ensures
        event == LineEvent::Split,
        after.unread.len() == 0,
        still_left.len() <= rest_of_packet.len(),
        after.packet + still_left == before.packet + rest_of_packet,
        after.held + after.unread + coming == line_frame(still_left),
{
    let line = before.held + before.unread;
    let whole = line + coming;
    let nothing = Seq::<u8>::empty();
    assert(whole.skip(line_frame(rest_of_packet).len() as int) =~= nothing);
    assert(whole =~= line_frame(rest_of_packet) + nothing);
    assert(whole[0] == END);
    assert(line[0] == whole[0]);
    assert forall|body: Seq<u8>| !#[trigger] escapes_badly(line, body) by {
        line_escapes_well(line, rest_of_packet, coming, body);
    }
    let (read, out, end, holds) = choose|read: int, out: Seq<u8>, end: bool, holds: Seq<u8>|
        #[trigger] reads(before, read, out, end, holds, event, after);
    let tail = if end {
        seq![END]
    } else {
        holds.skip(1)
    };
    assert(holds.skip(1) =~= nothing || holds.skip(1) =~= seq![ESC]);
    let unread = before.unread.skip(read) + coming;
    assert(whole =~= (before.held + before.unread.take(read)) + unread);
    assert(whole.skip(1) =~= escape_all(out) + (tail + unread));
    assert(whole.skip(1) =~= escape_all(rest_of_packet) + (seq![END] + nothing));
    decoded_is_packet(rest_of_packet, nothing, out, end, tail, unread);
    let left = rest_of_packet.skip(out.len() as int);
    assert(after.packet + left =~= before.packet + rest_of_packet) by {
        assert(rest_of_packet =~= out + left);
    }
    assert(holds =~= seq![END] + tail);
    assert(after.held + after.unread + coming =~= seq![END] + (tail + unread));
    assert(line_frame(left) =~= seq![END] + (escape_all(left) + (seq![END] + nothing)));
    left
}

/// What a receiver has that hears bytes.
pub open spec fn hears(before: Receiver, bytes: Seq<u8>) -> Receiver {
    Receiver { unread: before.unread + bytes, ..before }
}

/// Whether a receiver goes through these states, and comes to these events, when it hears the parts
/// one after the other and reads after each.
pub open spec fn reads_parts(
    parts: Seq<Seq<u8>>,
    states: Seq<Receiver>,
    events: Seq<LineEvent>,
) -> bool {
    &&& states.len() == parts.len() + 1
    &&& events.len() == parts.len()
    &&& forall|i: int|
        0 <= i < parts.len() ==> step(
            hears(states[i], #[trigger] parts[i]),
            events[i],
            states[i + 1],
        )
}

/// A receiver that has read all that it heard and then hears what is left of a packet, in parts,
/// delivers the packet after the last of them.
proof fn rest_in_parts_is_delivered(
    rest_of_packet: Seq<u8>,
    parts: Seq<Seq<u8>>,
    states: Seq<Receiver>,
    events: Seq<LineEvent>,
)
    requires
        rest_of_packet.len() < DECODE_BUFFER_SIZE,
        parts.len() > 0,
        forall|i: int| 0 <= i < parts.len() ==> (#[trigger] parts[i]).len() > 0,
        reads_parts(parts, states, events),
        states[0].unread.len() == 0,
        states[0].held + parts.flatten() == line_frame(rest_of_packet),
    ensures
        forall|i: int| 0 <= i < parts.len() - 1 ==> #[trigger] events[i] == LineEvent::Split,
        events.last() == LineEvent::Packet(states[0].packet + rest_of_packet),
        states.last() == between_packets(Seq::empty()),
    decreases parts.len(),
{
    let before = hears(states[0], parts[0]);
    let later = parts.drop_first();
    let coming = later.flatten();
    assert(before.unread =~= parts[0]);
    assert(parts.flatten() == parts.first() + coming);
    assert(before.held + before.unread + coming =~= states[0].held + parts.flatten());
    if later.len() == 0 {
        assert(coming =~= Seq::<u8>::empty());
        assert(before.held + before.unread =~= line_frame(rest_of_packet) + Seq::<u8>::empty());
        heard_packet_is_delivered(before, rest_of_packet, Seq::empty(), events[0], states[1]);
    } else {
        assert(later[0] == parts[1]);
        assert(coming == later.first() + later.drop_first().flatten());
        let left = heard_part_is_kept(before, rest_of_packet, coming, events[0], states[1]);
        let states_later = states.drop_first();
        let events_later = events.drop_first();
        assert(states[1].held + coming =~= states[1].held + states[1].unread + coming);
        assert forall|i: int| 0 <= i < later.len() implies (#[trigger] later[i]).len() > 0 by {
            assert(later[i] == parts[i + 1]);
        }
        assert forall|i: int| 0 <= i < later.len() implies step(
            hears(states_later[i], #[trigger] later[i]),
            events_later[i],
            states_later[i + 1],
        ) by {
            assert(later[i] == parts[i + 1]);
        }
        rest_in_parts_is_delivered(left, later, states_later, events_later);
        assert forall|i: int| 0 <= i < parts.len() - 1 implies #[trigger] events[i]
            == LineEvent::Split by {
            if i > 0 {
                assert(events_later[i - 1] == LineEvent::Split);
            }
        }
    }
}

/// It does not matter where the line is cut: a receiver between packets that hears what the line
/// carries for a packet, in any parts, waits after each but the last, and then delivers exactly
/// that packet.
pub proof fn packet_in_parts_is_delivered(
    packet: Seq<u8>,
    parts: Seq<Seq<u8>>,
    states: Seq<Receiver>,
    events: Seq<LineEvent>,
)
    requires
        packet.len() < DECODE_BUFFER_SIZE,
        forall|i: int| 0 <= i < parts.len() ==> (#[trigger] parts[i]).len() > 0,
        parts.flatten() == line_frame(packet),
        reads_parts(parts, states, events),
        states[0] == between_packets(Seq::empty()),
    ensures
        forall|i: int| 0 <= i < parts.len() - 1 ==> #[trigger] events[i] == LineEvent::Split,
        events.last() == LineEvent::Packet(packet),
        states.last() == between_packets(Seq::empty()),
{
    assert(states[0].held + parts.flatten() =~= line_frame(packet));
    assert(states[0].packet + packet =~= packet);
    rest_in_parts_is_delivered(packet, parts, states, events);
}

/// What the line carries for packets that follow each other.
pub open spec fn line_stream(packets: Seq<Seq<u8>>) -> Seq<u8>
    decreases packets.len(),
{
    if packets.len() == 0 {
        Seq::empty()
    } else {
        line_frame(packets[0]) + line_stream(packets.skip(1))
    }
}

/// What a receiver does.
pub enum LineStep {
    /// It hears these bytes.
    Hear(Seq<u8>),
    /// It reads, and comes to this.
    Read(LineEvent),
}

/// Whether a receiver that takes these steps goes through these states.
pub open spec fn runs(steps: Seq<LineStep>, states: Seq<Receiver>) -> bool {
    &&& states.len() == steps.len() + 1
    &&& forall|i: int|
        0 <= i < steps.len() ==> match #[trigger] steps[i] {
            LineStep::Hear(bytes) => states[i + 1] == hears(states[i], bytes),
            LineStep::Read(event) => step(states[i], event, states[i + 1]),
        }
}

/// The bytes that a receiver hears in its steps.
pub open spec fn bytes_heard(steps: Seq<LineStep>) -> Seq<u8>
    decreases steps.len(),
{
    if steps.len() == 0 {
        Seq::empty()
    } else {
        let before = bytes_heard(steps.drop_last());
        match steps.last() {
            LineStep::Hear(bytes) => before + bytes,
            _ => before,
        }
    }
}

/// The packets that a receiver delivers in its steps.
pub open spec fn packets_delivered(steps: Seq<LineStep>) -> Seq<Seq<u8>>
    decreases steps.len(),
{
    if steps.len() == 0 {
        Seq::empty()
    } else {
        let before = packets_delivered(steps.drop_last());
        match steps.last() {
            LineStep::Read(LineEvent::Packet(packet)) => before.push(packet),
            _ => before,
        }
    }
}

/// Whether a receiver is on its way through packets: what it has, and what is coming, is what is
/// left of the first of them and then the others.
spec fn awaits(state: Receiver, packets: Seq<Seq<u8>>, left: Seq<u8>, coming: Seq<u8>) -> bool {
    &&& state.held.len() == 0 || state.held == seq![END] || state.held == seq![END, ESC]
    &&& if packets.len() == 0 {
        state == between_packets(Seq::empty()) && coming.len() == 0
    } else {
        &&& state.held + state.unread + coming == line_frame(left) + line_stream(packets.skip(1))
        &&& state.packet + left == packets[0]
    }
}

/// A receiver between packets is at the beginning of the first of those that it has or that are
/// coming.
proof fn awaits_from_the_beginning(packets: Seq<Seq<u8>>, unread: Seq<u8>, coming: Seq<u8>) -> (left:
    Seq<u8>)
    requires
        unread + coming == line_stream(packets),
    ensures
        awaits(between_packets(unread), packets, left, coming),
{
    let state = between_packets(unread);
    if packets.len() == 0 {
        assert((unread + coming).len() == 0);
        assert(unread =~= Seq::<u8>::empty());
        Seq::empty()
    } else {
        assert(state.held + state.unread + coming =~= unread + coming);
        assert(state.packet + packets[0] =~= packets[0]);
        packets[0]
    }
}

/// A receiver that reads on its way through packets delivers the first of them, or waits, and is on
/// its way through the others.
proof fn reading_goes_on(
    state: Receiver,
    packets: Seq<Seq<u8>>,
    left: Seq<u8>,
    coming: Seq<u8>,
    event: LineEvent,
    after: Receiver,
) -> (still_left: Seq<u8>)
    requires
        awaits(state, packets, left, coming),
        packets.len() > 0 ==> packets[0].len() < DECODE_BUFFER_SIZE,
        step(state, event, after),
    ensures
        match event {
            LineEvent::Packet(packet) => {
                &&& packets.len() > 0
                &&& packet == packets[0]
                &&& awaits(after, packets.skip(1), still_left, coming)
            },
            LineEvent::Failed(_) => false,
            _ => awaits(after, packets, still_left, coming),
        },
{
    let frame = line_frame(left);
    let line = state.held + state.unread;
    let others = line_stream(packets.skip(1));
    let whole = line + coming;
    if state.unread.len() == 0 {
        left
    } else if line.len() >= frame.len() {
        assert(whole == frame + others);
        assert(left.len() <= (state.packet + left).len());
        let following = line.skip(frame.len() as int);
        assert(line =~= frame + following) by {
            assert(whole.take(frame.len() as int) =~= frame);
            assert(line.take(frame.len() as int) =~= whole.take(frame.len() as int));
        }
        heard_packet_is_delivered(state, left, following, event, after);
        assert(following + coming =~= whole.skip(frame.len() as int));
        assert(others =~= whole.skip(frame.len() as int));
        awaits_from_the_beginning(packets.skip(1), following, coming)
    } else {
        assert(whole == frame + others);
        assert(left.len() <= (state.packet + left).len());
        let missing = frame.skip(line.len() as int);
        assert(line + missing =~= frame) by {
            assert(whole.take(line.len() as int) =~= line);
            assert(frame.take(line.len() as int) =~= whole.take(line.len() as int));
        }
        let still_left = heard_part_is_kept(state, left, missing, event, after);
        assert(coming =~= missing + others) by {
            assert(whole.skip(line.len() as int) =~= coming);
            assert((frame + others).skip(line.len() as int) =~= missing + others);
        }
        assert(after.held + after.unread + coming =~= (after.held + after.unread + missing)
            + others);
        still_left
    }
}

/// Whatever a receiver between packets has heard of a line of packets, and however it hears and
/// reads, it is on its way through the packets that it has not delivered.
proof fn run_is_on_its_way(
    packets: Seq<Seq<u8>>,
    coming: Seq<u8>,
    steps: Seq<LineStep>,
    states: Seq<Receiver>,
) -> (left: Seq<u8>)
    requires
        forall|i: int| 0 <= i < packets.len() ==> (#[trigger] packets[i]).len()
            < DECODE_BUFFER_SIZE,
        states[0] == between_packets(Seq::empty()),
        runs(steps, states),
        bytes_heard(steps) + coming == line_stream(packets),
    ensures
        forall|i: int|
            0 <= i < steps.len() ==> !(#[trigger] steps[i] matches LineStep::Read(event)
                && event is Failed),
        packets_delivered(steps).len() <= packets.len(),
        packets_delivered(steps) == packets.take(packets_delivered(steps).len() as int),
        awaits(
            states.last(),
            packets.skip(packets_delivered(steps).len() as int),
            left,
            coming,
        ),
    decreases steps.len(),
{
    if steps.len() == 0 {
        assert(packets.take(0) =~= Seq::<Seq<u8>>::empty());
        assert(packets.skip(0) =~= packets);
        assert(bytes_heard(steps) =~= Seq::<u8>::empty());
        awaits_from_the_beginning(packets, Seq::empty(), coming)
    } else {
        let n = steps.len() - 1;
        let earlier = steps.drop_last();
        let last = steps[n];
        let before = states[n];
        let still_coming = match last {
            LineStep::Hear(bytes) => bytes + coming,
            _ => coming,
        };
        assert(bytes_heard(earlier) + still_coming =~= bytes_heard(steps) + coming);
        assert forall|i: int| 0 <= i < earlier.len() implies match #[trigger] earlier[i] {
            LineStep::Hear(bytes) => states.drop_last()[i + 1] == hears(
                states.drop_last()[i],
                bytes,
            ),
            LineStep::Read(event) => step(
                states.drop_last()[i],
                event,
                states.drop_last()[i + 1],
            ),
        } by {
            assert(earlier[i] == steps[i]);
        }
        let left = run_is_on_its_way(packets, still_coming, earlier, states.drop_last());
        let done = packets_delivered(earlier).len() as int;
        let rest = packets.skip(done);
        assert forall|i: int| 0 <= i < steps.len() - 1 implies !(#[trigger] steps[i] matches
            LineStep::Read(event) && event is Failed) by {
            assert(earlier[i] == steps[i]);
        }
        match last {
            LineStep::Hear(bytes) => {
                assert(states.last() == hears(before, bytes));
                if rest.len() == 0 {
                    assert(bytes.len() == 0);
                    assert(states.last() =~= between_packets(Seq::empty()));
                } else {
                    assert(before.held + before.unread + still_coming =~= before.held + (
                    before.unread + bytes) + coming);
                }
                left
            },
            LineStep::Read(event) => {
                assert(rest.len() > 0 ==> rest[0] == packets[done]);
                let still_left = reading_goes_on(
                    before,
                    rest,
                    left,
                    coming,
                    event,
                    states.last(),
                );
                if event is Packet {
                    assert(rest.skip(1) =~= packets.skip(done + 1));
                    assert(packets.take(done + 1) =~= packets.take(done).push(packets[done]));
                }
                still_left
            },
        }
    }
}

/// Packets that follow each other on the line are delivered one by one, in order, none of them lost
/// and nothing else delivered, wherever the line is cut and however the receiver hears and reads:
/// it never fails, what it has delivered are the first of the packets, and once all has been heard
/// and nothing is unread it has delivered all of them.
pub proof fn line_stream_is_delivered(
    packets: Seq<Seq<u8>>,
    coming: Seq<u8>,
    steps: Seq<LineStep>,
    states: Seq<Receiver>,
)
    requires
        forall|i: int| 0 <= i < packets.len() ==> (#[trigger] packets[i]).len()
            < DECODE_BUFFER_SIZE,
        states[0] == between_packets(Seq::empty()),
        runs(steps, states),
        bytes_heard(steps) + coming == line_stream(packets),
    ensures
        forall|i: int|
            0 <= i < steps.len() ==> !(#[trigger] steps[i] matches LineStep::Read(event)
                && event is Failed),
        packets_delivered(steps).len() <= packets.len(),
        packets_delivered(steps) == packets.take(packets_delivered(steps).len() as int),
        coming.len() == 0 && states.last().unread.len() == 0 ==> packets_delivered(steps) == packets
            && states.last() == between_packets(Seq::empty()),
{
    let left = run_is_on_its_way(packets, coming, steps, states);
    let rest = packets.skip(packets_delivered(steps).len() as int);
    let state = states.last();
    if coming.len() == 0 && state.unread.len() == 0 {
        if rest.len() > 0 {
            let line = line_frame(left) + line_stream(rest.skip(1));
            assert(state.held + state.unread + coming =~= state.held);
            assert(line[line_frame(left).len() - 1] == END);
            assert(state.held.len() >= 2);
            assert(false);
        }
        assert(packets.take(packets.len() as int) =~= packets);
    }
}

/// How a decoder can have stopped: at the end of the packet, with all of the output written, or
/// with nothing unread.
spec fn stops(out: Seq<u8>, end: bool, tail: Seq<u8>, unread: Seq<u8>, room: int) -> bool {
    &&& out.len() <= room
    &&& end ==> tail == seq![END]
    &&& !end ==> tail == Seq::<u8>::empty() || tail == seq![ESC]
    &&& out.len() < room && !end ==> unread.len() == 0
    &&& out.len() == room ==> !end && tail == Seq::<u8>::empty()
}

/// Two ways to stop on the same line, of which the first has written no more than the second, are
/// the same.
proof fn stops_agree(
    out_1: Seq<u8>,
    end_1: bool,
    tail_1: Seq<u8>,
    unread_1: Seq<u8>,
    out_2: Seq<u8>,
    end_2: bool,
    tail_2: Seq<u8>,
    unread_2: Seq<u8>,
    room: int,
)
    requires
        stops(out_1, end_1, tail_1, unread_1, room),
        stops(out_2, end_2, tail_2, unread_2, room),
        escape_all(out_1) + (tail_1 + unread_1) == escape_all(out_2) + (tail_2 + unread_2),
        out_1.len() <= out_2.len(),
    ensures
        out_1 == out_2,
        end_1 == end_2,
        tail_1 == tail_2,
        unread_1 == unread_2,
{
    escape_aligns(out_1, out_2, tail_1 + unread_1, tail_2 + unread_2);
    let left = out_2.skip(out_1.len() as int);
    escape_begins(left);
    let rest = escape_all(left) + (tail_2 + unread_2);
    if left.len() > 0 {
        assert(rest[0] == escape_all(left)[0]);
        if end_1 {
            assert((tail_1 + unread_1)[0] == END);
        } else {
            assert(tail_1 + unread_1 =~= tail_1);
        }
        assert(false);
    }
    assert(out_1 =~= out_2);
    assert(rest =~= tail_2 + unread_2);
    if out_1.len() == room {
        assert(tail_1 + unread_1 =~= unread_1);
        assert(tail_2 + unread_2 =~= unread_2);
    } else {
        if end_1 {
            assert((tail_1 + unread_1)[0] == END);
            assert((tail_1 + unread_1).skip(1) =~= unread_1);
        } else {
            assert(tail_1 + unread_1 =~= tail_1);
        }
        if end_2 {
            assert((tail_2 + unread_2)[0] == END);
            assert((tail_2 + unread_2).skip(1) =~= unread_2);
        } else {
            assert(tail_2 + unread_2 =~= tail_2);
        }
        assert(unread_1 =~= unread_2);
    }
}

/// What a way to read leaves of the line is how the decoder stopped.
proof fn reading_stops(
    before: Receiver,
    read: int,
    out: Seq<u8>,
    end: bool,
    holds: Seq<u8>,
    event: LineEvent,
    after: Receiver,
) -> (tail: Seq<u8>)
    requires
        reads(before, read, out, end, holds, event, after),
    ensures
        stops(out, end, tail, before.unread.skip(read), DECODE_BUFFER_SIZE as int),
        (before.held + before.unread).skip(1) == escape_all(out) + (tail + before.unread.skip(read)),
        !end ==> holds == seq![END] + tail,
{
    let tail = if end {
        seq![END]
    } else {
        holds.skip(1)
    };
    assert(holds.skip(1) =~= Seq::<u8>::empty() || holds.skip(1) =~= seq![ESC]);
    let unread = before.unread.skip(read);
    let line = before.held + before.unread;
    assert(line =~= (before.held + before.unread.take(read)) + unread);
    assert(line.skip(1) =~= escape_all(out) + (tail + unread));
    assert(holds =~= seq![END] + holds.skip(1));
    tail
}

/// What a receiver comes to is determined by what it has.
pub proof fn step_is_determined(
    before: Receiver,
    event_1: LineEvent,
    after_1: Receiver,
    event_2: LineEvent,
    after_2: Receiver,
)
    requires
        step(before, event_1, after_1),
        step(before, event_2, after_2),
    ensures
        event_1 == event_2,
        after_1 == after_2,
{
    if before.unread.len() > 0 && !bad_header(before.held, before.unread) && !bad_escape(
        before.held,
        before.unread,
        DECODE_BUFFER_SIZE as int,
    ) {
        let (read_1, out_1, end_1, holds_1) = choose|
            read: int,
            out: Seq<u8>,
            end: bool,
            holds: Seq<u8>,
        | #[trigger]
            reads(before, read, out, end, holds, event_1, after_1);
        let (read_2, out_2, end_2, holds_2) = choose|
            read: int,
            out: Seq<u8>,
            end: bool,
            holds: Seq<u8>,
        | #[trigger]
            reads(before, read, out, end, holds, event_2, after_2);
        let tail_1 = reading_stops(before, read_1, out_1, end_1, holds_1, event_1, after_1);
        let tail_2 = reading_stops(before, read_2, out_2, end_2, holds_2, event_2, after_2);
        let unread_1 = before.unread.skip(read_1);
        let unread_2 = before.unread.skip(read_2);
        let room = DECODE_BUFFER_SIZE as int;
        if out_1.len() <= out_2.len() {
            stops_agree(
                out_1,
                end_1,
                tail_1,
                unread_1,
                out_2,
                end_2,
                tail_2,
                unread_2,
                room,
            );
        } else {
            stops_agree(
                out_2,
                end_2,
                tail_2,
                unread_2,
                out_1,
                end_1,
                tail_1,
                unread_1,
                room,
            );
        }
    }
}

/// As much of a packet is encoded as fits: what is encoded fits, and one byte more would not.
pub proof fn as_much_is_encoded_as_fits(packet: Seq<u8>, room: int)
    requires
        room >= 0,
    ensures
        fitting(packet, room) <= packet.len(),
        escape_all(packet.take(fitting(packet, room) as int)).len() <= room,
        fitting(packet, room) < packet.len() ==> escape_all(
            packet.take(fitting(packet, room) as int + 1),
        ).len() > room,
    decreases packet.len(),
{
    let n = fitting(packet, room) as int;
    if packet.len() == 0 {
        assert(packet.take(0) =~= Seq::<u8>::empty());
    } else if escaped(packet[0]).len() > room {
        assert(packet.take(0) =~= Seq::<u8>::empty());
        assert(packet.take(1)[0] == packet[0]);
    } else {
        let rest = packet.skip(1);
        let left = room - escaped(packet[0]).len();
        as_much_is_encoded_as_fits(rest, left);
        assert(packet.take(n).skip(1) =~= rest.take(n - 1));
        assert(packet.take(n)[0] == packet[0]);
        if n < packet.len() {
            assert(packet.take(n + 1).skip(1) =~= rest.take(n));
            assert(packet.take(n + 1)[0] == packet[0]);
        }
    }
}

/// A line that does not begin with a mark is dropped, and so is one on which an `ESC` stands before
/// a byte that it cannot stand before; with it goes what was read of the packet and all that was
/// heard.
pub proof fn broken_line_is_dropped(
    before: Receiver,
    body: Seq<u8>,
    byte: u8,
    following: Seq<u8>,
    event: LineEvent,
    after: Receiver,
)
    requires
        before.unread.len() > 0,
        step(before, event, after),
    ensures
        before.held.len() == 0 && before.unread[0] != 0xc0 ==> event == LineEvent::Failed(
            SlipError::BadHeaderDecode,
        ) && after.held.len() == 0 && after.unread.len() == 0 && after.packet.len() == 0,
        before.held + before.unread == seq![0xc0u8] + escape_all(body) + seq![0xdbu8, byte]
            + following && byte != 0xdc && byte != 0xdd && body.len() < DECODE_BUFFER_SIZE
            ==> event == LineEvent::Failed(SlipError::BadEscapeSequenceDecode)
            && after.held.len() == 0 && after.unread.len() == 0 && after.packet.len() == 0,
{
    let line = seq![END] + escape_all(body) + seq![ESC, byte] + following;
    if before.held + before.unread == line && byte != ESC_END && byte != ESC_ESC && body.len()
        < DECODE_BUFFER_SIZE {
        let at: int = 1 + escape_all(body).len() as int;
        assert(line[0] == END);
        if before.held.len() == 0 {
            assert((before.held + before.unread)[0] == before.unread[0]);
        }
        assert(line.take(at) =~= seq![END] + escape_all(body));
        assert(escapes_badly(line, body));
        assert(bad_escape(before.held, before.unread, DECODE_BUFFER_SIZE as int));
    }
}

/// A packet that is longer than what is decoded at once is decoded in pieces of that length: the
/// piece joins what was read before, and what is left of the packet, with what follows it, is left
/// on the line.
pub proof fn long_packet_is_read_in_pieces(
    before: Receiver,
    rest_of_packet: Seq<u8>,
    following: Seq<u8>,
    event: LineEvent,
    after: Receiver,
)
    requires
        before.held + before.unread == line_frame(rest_of_packet) + following,
        before.unread.len() > 0,
        rest_of_packet.len() >= DECODE_BUFFER_SIZE,
        step(before, event, after),
    ensures
        event == LineEvent::Split,
        after.packet == before.packet + rest_of_packet.take(DECODE_BUFFER_SIZE as int),
        after.held + after.unread == line_frame(rest_of_packet.skip(DECODE_BUFFER_SIZE as int))
            + following,
{
    let line = before.held + before.unread;
    assert(line.skip(line_frame(rest_of_packet).len() as int) =~= following);
    assert(line + Seq::<u8>::empty() =~= line);
    assert(line[0] == END);
    assert forall|body: Seq<u8>| !#[trigger] escapes_badly(line, body) by {
        line_escapes_well(line, rest_of_packet, Seq::empty(), body);
    }
    let (read, out, end, holds) = choose|read: int, out: Seq<u8>, end: bool, holds: Seq<u8>|
        #[trigger] reads(before, read, out, end, holds, event, after);
    let tail = if end {
        seq![END]
    } else {
        holds.skip(1)
    };
    assert(holds.skip(1) =~= Seq::<u8>::empty() || holds.skip(1) =~= seq![ESC]);
    let unread = before.unread.skip(read);
    assert(line =~= (before.held + before.unread.take(read)) + unread);
    assert(line.skip(1) =~= escape_all(out) + (tail + unread));
    assert(line.skip(1) =~= escape_all(rest_of_packet) + (seq![END] + following));
    decoded_is_packet(rest_of_packet, following, out, end, tail, unread);
    assert(out.len() == DECODE_BUFFER_SIZE);
    let left = rest_of_packet.skip(DECODE_BUFFER_SIZE as int);
    assert(tail =~= Seq::<u8>::empty());
    assert(after.held + after.unread =~= seq![END] + (tail + unread));
    assert(line_frame(left) + following =~= seq![END] + (escape_all(left) + (seq![END]
        + following)));
}

/// What the line carries for a packet is the packet between two marks, in which each mark and each
/// `ESC` of the packet stands as two bytes and every other byte as itself.
pub proof fn line_layout(first: u8, rest: Seq<u8>)
    ensures
        line_frame(Seq::empty()) == seq![0xc0u8, 0xc0u8],
        line_frame(seq![first] + rest) == seq![0xc0u8] + if first == 0xc0 {
            seq![0xdbu8, 0xdcu8]
        } else if first == 0xdb {
            seq![0xdbu8, 0xddu8]
        } else {
            seq![first]
        } + line_frame(rest).skip(1),
{
    let packet = seq![first] + rest;
    assert(packet.skip(1) =~= rest);
    assert(line_frame(Seq::empty()) =~= seq![0xc0u8, 0xc0u8]);
    assert(line_frame(rest).skip(1) =~= escape_all(rest) + seq![END]);
    assert(line_frame(packet) =~= seq![END] + escaped(first) + line_frame(rest).skip(1));
}

} // verus!
