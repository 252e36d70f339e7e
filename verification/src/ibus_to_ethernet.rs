//! Puts the packets from the bus into frames for the host.

use crate::ipv4_packet_reconstructor::{bus_frame, is_deliverable};
use crate::wire::ethernet::{
    ethernet_frame, ethertype_field, frame_bytes, frame_carries_payload, frame_ok, frame_payload,
    EthernetAddress, ETHERNET_HEADER_LEN, ETHERTYPE_IPV4,
};
use crate::wire::ipv4::{lengths_ok, total_len_field};
use vstd::prelude::*;

verus! {

/// The frame that takes a packet from the bus to the host.
pub fn ibus_ipv4_to_ethernet(
    receive_ipv4_packet: &[u8],
    destination_mac_address: EthernetAddress,
    source_simulated_mac_address: EthernetAddress,
) -> (frame: Vec<u8>)
    requires
        receive_ipv4_packet@.len() + ETHERNET_HEADER_LEN <= usize::MAX,
    ensures
        frame@ == frame_bytes(
            destination_mac_address@,
            source_simulated_mac_address@,
            ETHERTYPE_IPV4,
            receive_ipv4_packet@,
        ),
{
    ethernet_frame(
        destination_mac_address,
        source_simulated_mac_address,
        ETHERTYPE_IPV4,
        receive_ipv4_packet,
    )
}

/// What is to be done next.
#[derive(Clone, Copy, Debug, PartialEq, Eq, Structural)]
pub enum RedirectAction {
    /// Wait for a packet from the bus.
    Receive,
    /// Send the frame to the host, and wait while there is no room for it.
    Send,
}

/// What came of it.
#[derive(Debug, PartialEq, Eq)]
pub enum RedirectEvent {
    /// This packet came from the bus.
    Received(Vec<u8>),
    /// The frame was sent.
    Sent,
}

/// Sends the packets from the bus to the host. Whether they are valid is not asked.
pub struct EthernetRedirect {
    destination_mac_address: EthernetAddress,
    source_simulated_mac_address: EthernetAddress,
    frame: Option<Vec<u8>>,
}

/// What an `EthernetRedirect` knows.
pub struct Redirect {
    /// The hardware address of the host.
    pub destination: Seq<u8>,
    /// The hardware address that all addresses on the bus are said to have.
    pub source: Seq<u8>,
    /// The frame that is to be sent.
    pub frame: Option<Seq<u8>>,
}

impl View for EthernetRedirect {
    type V = Redirect;

    closed spec fn view(&self) -> Redirect {
        Redirect {
            destination: self.destination_mac_address@,
            source: self.source_simulated_mac_address@,
            frame: match self.frame {
                Some(frame) => Some(frame@),
                None => None,
            },
        }
    }
}

impl Redirect {
    /// The frame for a packet.
    pub open spec fn frame_for(self, packet: Seq<u8>) -> Seq<u8> {
        frame_bytes(self.destination, self.source, ETHERTYPE_IPV4, packet)
    }

    /// What is to be done next.
    pub open spec fn action(self) -> RedirectAction {
        if self.frame is Some {
            RedirectAction::Send
        } else {
            RedirectAction::Receive
        }
    }

    /// Whether an event can come of what was to be done.
    pub open spec fn expects(self, event: RedirectEvent) -> bool {
        match event {
            RedirectEvent::Received(packet) => self.action() is Receive && packet@.len()
                + ETHERNET_HEADER_LEN <= usize::MAX,
            RedirectEvent::Sent => self.action() is Send,
        }
    }

    /// What comes after an event.
    pub open spec fn after(self, event: RedirectEvent) -> Redirect {
        match event {
            RedirectEvent::Received(packet) => Redirect {
                frame: Some(self.frame_for(packet@)),
                ..self
            },
            RedirectEvent::Sent => Redirect { frame: None, ..self },
        }
    }

    /// What comes after several events.
    pub open spec fn after_all(self, events: Seq<RedirectEvent>) -> Redirect
        decreases events.len(),
    {
        if events.len() == 0 {
            self
        } else {
            self.after_all(events.drop_last()).after(events.last())
        }
    }

    /// Whether each of several events can come when it does.
    pub open spec fn expects_all(self, events: Seq<RedirectEvent>) -> bool
        decreases events.len(),
    {
        events.len() > 0 ==> self.expects_all(events.drop_last()) && self.after_all(
            events.drop_last(),
        ).expects(events.last())
    }

    /// The frame that is to be sent, if there is one.
    pub open spec fn kept(self) -> Seq<Seq<u8>> {
        match self.frame {
            Some(frame) => seq![frame],
            None => Seq::empty(),
        }
    }

    /// The frames that are sent in the course of several events.
    pub open spec fn frames_sent(self, events: Seq<RedirectEvent>) -> Seq<Seq<u8>>
        decreases events.len(),
    {
        if events.len() == 0 {
            Seq::empty()
        } else {
            let before = self.frames_sent(events.drop_last());
            match events.last() {
                RedirectEvent::Sent => before + self.after_all(events.drop_last()).kept(),
                _ => before,
            }
        }
    }
}

/// The packets that several events bring.
pub open spec fn packets_received(events: Seq<RedirectEvent>) -> Seq<Seq<u8>>
    decreases events.len(),
{
    if events.len() == 0 {
        Seq::empty()
    } else {
        let before = packets_received(events.drop_last());
        match events.last() {
            RedirectEvent::Received(packet) => before.push(packet@),
            _ => before,
        }
    }
}

impl EthernetRedirect {
    /// Waits for a packet first.
    pub fn new(
        destination_mac_address: EthernetAddress,
        source_simulated_mac_address: EthernetAddress,
    ) -> (redirect: Self)
        ensures
            redirect@ == (Redirect {
                destination: destination_mac_address@,
                source: source_simulated_mac_address@,
                frame: None,
            }),
    {
        Self { destination_mac_address, source_simulated_mac_address, frame: None }
    }

    /// What is to be done next.
    pub fn action(&self) -> (action: RedirectAction)
        ensures
            action == self@.action(),
    {
        match self.frame {
            Some(_) => RedirectAction::Send,
            None => RedirectAction::Receive,
        }
    }

    /// The frame that is to be sent.
    pub fn frame(&self) -> (frame: Option<&[u8]>)
        ensures
            match frame {
                Some(frame) => self@.frame == Some(frame@),
                None => self@.frame is None,
            },
    {
        match &self.frame {
            Some(frame) => Some(frame.as_slice()),
            None => None,
        }
    }

    /// Takes in what came of the last action.
    pub fn handle(&mut self, event: RedirectEvent)
        requires
            old(self)@.expects(event),
        ensures
            final(self)@ == old(self)@.after(event),
    {
        match event {
            RedirectEvent::Received(packet) => {
                let frame = ibus_ipv4_to_ethernet(
                    packet.as_slice(),
                    self.destination_mac_address,
                    self.source_simulated_mac_address,
                );
                self.frame = Some(frame);
            },
            RedirectEvent::Sent => {
                self.frame = None;
            },
        }
    }
}

/// The addresses stay as they are.
proof fn addresses_stay(redirect: Redirect, events: Seq<RedirectEvent>)
    ensures
        redirect.after_all(events).destination == redirect.destination,
        redirect.after_all(events).source == redirect.source,
    decreases events.len(),
{
    if events.len() > 0 {
        addresses_stay(redirect, events.drop_last());
    }
}

/// Each packet from the bus becomes one frame for the host, whatever the packet holds, and none is
/// lost, sent twice or overtaken: the frames for the packets that came are those that were sent, in
/// the same order, and after them the one that is to be sent, if any.
pub proof fn frames_are_sent_once_and_in_order(redirect: Redirect, events: Seq<RedirectEvent>)
    requires
        redirect.expects_all(events),
    ensures
        redirect.kept() + packets_received(events).map_values(
            |packet: Seq<u8>| redirect.frame_for(packet),
        ) == redirect.frames_sent(events) + redirect.after_all(events).kept(),
    decreases events.len(),
{
    let to_frame = |packet: Seq<u8>| redirect.frame_for(packet);
    let received = packets_received(events);
    let sent = redirect.frames_sent(events);
    let kept = redirect.after_all(events).kept();
    if events.len() > 0 {
        let earlier = events.drop_last();
        let before = redirect.after_all(earlier);
        frames_are_sent_once_and_in_order(redirect, earlier);
        addresses_stay(redirect, earlier);
        match events.last() {
            RedirectEvent::Received(packet) => {
                let frames = redirect.kept() + packets_received(earlier).map_values(to_frame);
                assert(redirect.kept() + received.map_values(to_frame) =~= frames.push(
                    redirect.frame_for(packet@),
                ));
                assert(before.kept() =~= Seq::<Seq<u8>>::empty());
                assert(sent + before.kept() =~= sent);
                assert(kept =~= seq![redirect.frame_for(packet@)]);
            },
            RedirectEvent::Sent => {
                assert(kept =~= Seq::<Seq<u8>>::empty());
                assert(sent + kept =~= sent);
            },
        }
    } else {
        assert(received.map_values(to_frame) =~= Seq::<Seq<u8>>::empty());
        assert(redirect.kept() + received.map_values(to_frame) =~= sent + kept);
    }
}

/// The host reads the packet that was sent on the bus: the frame is an IPv4 frame, what it carries
/// is taken for a packet, and the packet is what its total length covers. The checksum from the bus
/// is left behind it.
pub proof fn host_reads_the_packet(
    packet: Seq<u8>,
    crc: u16,
    destination: Seq<u8>,
    source: Seq<u8>,
)
    requires
        is_deliverable(packet),
        destination.len() == 6,
        source.len() == 6,
    ensures
        ({
            let frame = frame_bytes(destination, source, ETHERTYPE_IPV4, bus_frame(packet, crc));
            let payload = frame_payload(frame);
            &&& frame_ok(frame)
            &&& ethertype_field(frame) == ETHERTYPE_IPV4
            &&& lengths_ok(payload)
            &&& payload.take(total_len_field(payload)) == packet
        }),
{
    frame_carries_payload(destination, source, ETHERTYPE_IPV4, bus_frame(packet, crc));
    assert(bus_frame(packet, crc).take(packet.len() as int) =~= packet);
}

/// A packet from the bus, whatever it holds and however long it is, becomes a frame that has the
/// hardware address of the host, the simulated one and the number of IPv4 before the whole packet;
/// the frame is kept until it is sent, and then another packet is waited for.
pub proof fn each_packet_becomes_a_frame(redirect: Redirect, event: RedirectEvent)
    requires
        redirect.destination.len() == 6,
        redirect.source.len() == 6,
    ensures
        ({
            let after = redirect.after(event);
            &&& after.destination == redirect.destination
            &&& after.source == redirect.source
            &&& match event {
                RedirectEvent::Received(packet) => after.frame matches Some(frame) && {
                    &&& frame.len() == 14 + packet@.len()
                    &&& frame.take(6) == redirect.destination
                    &&& frame.subrange(6, 12) == redirect.source
                    &&& frame[12] == 8
                    &&& frame[13] == 0
                    &&& frame.skip(14) == packet@
                },
                RedirectEvent::Sent => after.frame is None,
            }
        }),
        redirect.frame is None ==> redirect.action() is Receive,
        redirect.frame is Some ==> redirect.action() is Send,
        redirect.frame is None ==> (event matches RedirectEvent::Received(packet) && packet@.len()
            + 14 <= usize::MAX ==> redirect.expects(event)),
        redirect.frame is Some ==> (event is Sent ==> redirect.expects(event)),
{
    if let RedirectEvent::Received(packet) = event {
        crate::wire::ethernet::frame_layout(
            redirect.destination,
            redirect.source,
            ETHERTYPE_IPV4,
            packet@,
        );
    }
}

} // verus!
