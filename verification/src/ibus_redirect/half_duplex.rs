//! Takes turns in hearing what comes from the bus and sending what is to go there.
//!
//! A message is sent only when the bus is idle. One that could not be sent is kept, and tried again
//! after a wait that follows the next bytes from the bus, until it is sent. No other message is
//! taken meanwhile.

use crate::carrier_sense::CarrierSenseTimer;
use crate::channel::{growing_may_be_nothing, Sent};
use crate::ibus_redirect::backoff::{Backoff, CarrierSenseBackoffCaluator, Duration};
use crate::ibus_redirect::bus::{
    may_write_to_internal_bus, write_to_internal_bus, Echo, ECHO_BUFFER_SIZE,
};
use crate::ipv4_packet_reconstructor::{parse_bytes, Ipv4PacketParser};
use vstd::prelude::*;

verus! {

/// What is to be done next.
#[derive(Clone, Copy, Debug, PartialEq, Eq, Structural)]
pub enum Action {
    /// Wait for bytes from the bus or for a message to send, whichever comes first.
    Listen,
    /// Wait for bytes from the bus.
    Read,
    /// Draw a random number.
    DrawRandom,
    /// Wait that long.
    Pause(Duration),
    /// Read the carrier sense timer.
    SenseLine,
    /// Look whether there are bytes to read.
    CheckReady,
    /// Send the message, and hear its echo.
    Transmit,
}

/// What came of it.
#[derive(Debug, PartialEq, Eq)]
pub enum Event {
    /// These bytes came from the bus.
    Heard(Vec<u8>),
    /// Reading from the bus failed.
    ReadFailed,
    /// This message is to be sent.
    Request(Vec<u8>),
    /// This number was drawn.
    Random(u32),
    /// The wait is over.
    Paused,
    /// The carrier sense timer showed this.
    Line(CarrierSenseTimer),
    /// Whether there are bytes to read, if that is known.
    Ready(Option<bool>),
    /// This was heard after the message.
    Echoed(Echo),
}

/// Takes turns on the bus.
pub struct HalfDuplex {
    action: Action,
    retrying: bool,
    to_send: Vec<u8>,
    heard: Vec<u8>,
    packet_feeder: Ipv4PacketParser,
    backoff_calculator: CarrierSenseBackoffCaluator,
}

/// What a `HalfDuplex` knows.
pub struct Turn {
    /// What is to be done next.
    pub action: Action,
    /// Whether the message could not be sent at first.
    pub retrying: bool,
    /// The message to send, or nothing.
    pub to_send: Seq<u8>,
    /// The bytes that were heard last while a message was kept.
    pub heard: Seq<u8>,
    /// The bytes of the packet from the bus that is not complete yet.
    pub pending: Seq<u8>,
    /// The packets from the bus that were handed on.
    pub offered: Seq<Seq<u8>>,
    /// The tries so far.
    pub backoff: Backoff,
}

impl View for HalfDuplex {
    type V = Turn;

    closed spec fn view(&self) -> Turn {
        Turn {
            action: self.action,
            retrying: self.retrying,
            to_send: self.to_send@,
            heard: self.heard@,
            pending: self.packet_feeder.pending(),
            offered: self.packet_feeder.offered(),
            backoff: self.backoff_calculator@,
        }
    }
}

/// Whether an echo is that of the message.
pub open spec fn is_echo(message: Seq<u8>, echo: Echo) -> bool {
    echo matches Echo::Heard(heard) && heard@ == message
}

impl Turn {
    /// A message is kept while, and only while, it is being sent or waits to be sent again. One
    /// whose echo does not fit into the buffer is not transmitted.
    pub open spec fn wf(self) -> bool {
        &&& self.backoff.in_range()
        &&& self.backoff.current_retries <= self.backoff.max_retries
        &&& self.retrying ==> self.to_send.len() > 0
        &&& match self.action {
            Action::Listen => !self.retrying && self.to_send.len() == 0,
            Action::Read | Action::DrawRandom | Action::Pause(_) => self.retrying,
            Action::SenseLine | Action::CheckReady => true,
            Action::Transmit => self.to_send.len() <= ECHO_BUFFER_SIZE,
        }
    }

    /// Whether an event can come of what was to be done. Only a message whose echo fits into the
    /// buffer can be sent.
    pub open spec fn expects(self, event: Event) -> bool {
        match self.action {
            Action::Listen => event is Heard || event is ReadFailed || event is Request,
            Action::Read => event is Heard || event is ReadFailed,
            Action::DrawRandom => event is Random,
            Action::Pause(_) => event is Paused,
            Action::SenseLine => event is Line,
            Action::CheckReady => event matches Event::Ready(ready) && (ready == Some(true)
                || self.to_send.len() <= ECHO_BUFFER_SIZE),
            Action::Transmit => event is Echoed,
        }
    }

    /// After these bytes went to the parser.
    pub open spec fn fed(self, bytes: Seq<u8>) -> Turn {
        let parsed = parse_bytes(self.pending, self.offered, bytes);
        Turn { pending: parsed.pending, offered: parsed.offered, ..self }
    }

    /// After the message could not be sent: it is kept, and tried again.
    pub open spec fn refused(self) -> Turn {
        if self.to_send.len() > 0 {
            Turn { action: Action::Read, retrying: true, ..self }
        } else {
            Turn { action: Action::Listen, ..self }
        }
    }

    /// After the message was sent.
    pub open spec fn sent(self) -> Turn {
        Turn {
            action: Action::Listen,
            retrying: false,
            to_send: Seq::empty(),
            backoff: if self.retrying {
                self.backoff.fresh()
            } else {
                self.backoff
            },
            ..self
        }
    }

    /// What comes after an event.
    pub open spec fn after(self, event: Event) -> Turn {
        match event {
            Event::Heard(bytes) => if self.action is Listen {
                self.fed(bytes@)
            } else {
                Turn { action: Action::DrawRandom, heard: bytes@, ..self }
            },
            Event::ReadFailed => self,
            Event::Request(message) => Turn {
                action: Action::SenseLine,
                to_send: message@,
                ..self
            },
            Event::Random(random) => Turn {
                action: Action::Pause(Duration { ticks: self.backoff.wait(random) as u64 }),
                backoff: self.backoff.next(),
                ..self
            },
            Event::Paused => Turn { action: Action::SenseLine, ..self.fed(self.heard) },
            Event::Line(timer) => if timer.count == 0 {
                Turn { action: Action::CheckReady, ..self }
            } else {
                self.refused()
            },
            Event::Ready(ready) => if ready == Some(true) {
                self.refused()
            } else {
                Turn { action: Action::Transmit, ..self }
            },
            Event::Echoed(echo) => if is_echo(self.to_send, echo) {
                self.sent()
            } else {
                self.refused()
            },
        }
    }

    /// What comes after several events.
    pub open spec fn after_all(self, events: Seq<Event>) -> Turn
        decreases events.len(),
    {
        if events.len() == 0 {
            self
        } else {
            self.after_all(events.drop_last()).after(events.last())
        }
    }

    /// Whether each of several events can come when it does.
    pub open spec fn expects_all(self, events: Seq<Event>) -> bool
        decreases events.len(),
    {
        events.len() > 0 ==> self.expects_all(events.drop_last()) && self.after_all(
            events.drop_last(),
        ).expects(events.last())
    }

    /// The messages that are sent in the course of several events.
    pub open spec fn messages_sent(self, events: Seq<Event>) -> Seq<Seq<u8>>
        decreases events.len(),
    {
        if events.len() == 0 {
            Seq::empty()
        } else {
            let before = self.messages_sent(events.drop_last());
            let message = self.after_all(events.drop_last()).to_send;
            if events.last() matches Event::Echoed(echo) && is_echo(message, echo) {
                before.push(message)
            } else {
                before
            }
        }
    }

    /// The message that is kept, if there is one.
    pub open spec fn kept(self) -> Seq<Seq<u8>> {
        if self.to_send.len() > 0 {
            seq![self.to_send]
        } else {
            Seq::empty()
        }
    }

    /// What the parser has, or will have when the bytes that were heard last have gone to it.
    pub open spec fn caught_up(self) -> Turn {
        if self.action is DrawRandom || self.action is Pause {
            self.fed(self.heard)
        } else {
            self
        }
    }
}

/// The messages that several events bring.
pub open spec fn messages_requested(events: Seq<Event>) -> Seq<Seq<u8>>
    decreases events.len(),
{
    if events.len() == 0 {
        Seq::empty()
    } else {
        let before = messages_requested(events.drop_last());
        match events.last() {
            Event::Request(message) => before.push(message@),
            _ => before,
        }
    }
}

impl HalfDuplex {
    /// The parser is consistent.
    pub closed spec fn feeder_wf(&self) -> bool {
        self.packet_feeder.wf()
    }

    /// The packets from the bus that the channel for them took.
    pub closed spec fn taken(&self) -> Seq<Seq<u8>> {
        self.packet_feeder.taken()
    }

    /// What went to that channel.
    pub open spec fn handed_on(&self) -> Sent {
        Sent { offered: self@.offered, taken: self.taken() }
    }

    /// The parser and what the events led to are consistent.
    pub open spec fn wf(&self) -> bool {
        self.feeder_wf() && self@.wf()
    }

    /// Listens first.
    pub fn new(
        packet_feeder: Ipv4PacketParser,
        backoff_calculator: CarrierSenseBackoffCaluator,
    ) -> (half_duplex: Self)
        requires
            packet_feeder.wf(),
            backoff_calculator@.in_range(),
            backoff_calculator@.current_retries <= backoff_calculator@.max_retries,
        ensures
            half_duplex.wf(),
            half_duplex@ == (Turn {
                action: Action::Listen,
                retrying: false,
                to_send: Seq::empty(),
                heard: Seq::empty(),
                pending: packet_feeder.pending(),
                offered: packet_feeder.offered(),
                backoff: backoff_calculator@,
            }),
            half_duplex.handed_on() == packet_feeder.sent(),
    {
        let half_duplex = Self {
            action: Action::Listen,
            retrying: false,
            to_send: Vec::new(),
            heard: Vec::new(),
            packet_feeder,
            backoff_calculator,
        };
        assert(half_duplex@.to_send =~= Seq::empty());
        assert(half_duplex@.heard =~= Seq::empty());
        half_duplex
    }

    /// What is to be done next.
    pub fn action(&self) -> (action: Action)
        ensures
            action == self@.action,
    {
        self.action
    }

    /// The message to send, or nothing.
    pub fn to_send(&self) -> (message: &[u8])
        ensures
            message@ == self@.to_send,
    {
        self.to_send.as_slice()
    }

    /// Keeps the message to try again, unless it is empty.
    fn refuse(&mut self)
        requires
            old(self).wf(),
            !(old(self)@.action is Listen),
        ensures
            final(self).wf(),
            final(self)@ == old(self)@.refused(),
            final(self).handed_on() == old(self).handed_on(),
    {
        if self.to_send.len() > 0 {
            self.action = Action::Read;
            self.retrying = true;
        } else {
            self.action = Action::Listen;
        }
    }

    /// Takes in what came of the last action.
    pub fn handle(&mut self, event: Event)
        requires
            old(self).wf(),
            old(self)@.expects(event),
        ensures
            final(self).wf(),
            final(self)@ == old(self)@.after(event),
            old(self).handed_on().grows_to(final(self).handed_on()),
    {
        proof {
            growing_may_be_nothing(self.handed_on());
        }
        match event {
            Event::Heard(bytes) => {
                if self.action == Action::Listen {
                    self.packet_feeder.push_slice(bytes.as_slice());
                } else {
                    self.heard = bytes;
                    self.action = Action::DrawRandom;
                }
            },
            Event::ReadFailed => {},
            Event::Request(message) => {
                self.to_send = message;
                self.action = Action::SenseLine;
            },
            Event::Random(random) => {
                proof {
                    crate::ibus_redirect::backoff::wait_is_bounded(
                        self.backoff_calculator@,
                        random,
                    );
                }
                let wait = self.backoff_calculator.backoff(random);
                self.action = Action::Pause(wait);
            },
            Event::Paused => {
                self.packet_feeder.push_slice(self.heard.as_slice());
                self.action = Action::SenseLine;
            },
            Event::Line(timer) => {
                if timer.line_idle() {
                    self.action = Action::CheckReady;
                } else {
                    self.refuse();
                }
            },
            Event::Ready(read_ready) => {
                if may_write_to_internal_bus(read_ready).is_ok() {
                    self.action = Action::Transmit;
                } else {
                    self.refuse();
                }
            },
            Event::Echoed(echo) => {
                if write_to_internal_bus(self.to_send.as_slice(), &echo).is_ok() {
                    self.to_send.clear();
                    if self.retrying {
                        self.backoff_calculator.reset();
                    }
                    self.retrying = false;
                    self.action = Action::Listen;
                } else {
                    self.refuse();
                }
            },
        }
    }
}

/// What a `HalfDuplex` knows stays consistent, whatever comes of its actions.
pub proof fn turn_stays_wf(turn: Turn, event: Event)
    requires
        turn.wf(),
        turn.expects(event),
    ensures
        turn.after(event).wf(),
{
}

/// A message is sent only on an idle bus: the carrier sense timer was stopped, and then there were
/// no bytes to read.
pub proof fn only_an_idle_bus_is_sent_on(turn: Turn, event: Event)
    requires
        turn.expects(event),
    ensures
        turn.after(event).action is Transmit ==> turn.action is CheckReady && event
            != Event::Ready(Some(true)),
        turn.after(event).action is CheckReady ==> turn.action is SenseLine && event
            == Event::Line(CarrierSenseTimer { count: 0 }),
{
}

/// A message that is kept stays as it is until its echo is heard, and no other message is asked for
/// meanwhile.
pub proof fn message_is_kept_until_it_is_sent(turn: Turn, event: Event)
    requires
        turn.wf(),
        turn.expects(event),
        turn.to_send.len() > 0,
    ensures
        !(turn.action is Listen),
        turn.after(event).to_send == turn.to_send || (turn.action is Transmit && (event matches
            Event::Echoed(echo) && is_echo(turn.to_send, echo))),
{
}

/// Events keep what a `HalfDuplex` knows consistent.
proof fn turn_stays_wf_after_all(turn: Turn, events: Seq<Event>)
    requires
        turn.wf(),
        turn.expects_all(events),
    ensures
        turn.after_all(events).wf(),
    decreases events.len(),
{
    if events.len() > 0 {
        turn_stays_wf_after_all(turn, events.drop_last());
    }
}

/// No message is lost, sent twice or overtaken: whatever happens, the messages that were asked for
/// are those that were sent, in the same order, and after them the one that is kept, if any. Empty
/// messages are left out of this: one is dropped if the bus is busy.
pub proof fn messages_are_sent_once_and_in_order(turn: Turn, events: Seq<Event>)
    requires
        turn.wf(),
        turn.expects_all(events),
        turn.action is Listen || turn.to_send.len() > 0,
        forall|i: int|
            0 <= i < events.len() ==> (#[trigger] events[i] matches Event::Request(message)
                ==> message@.len() > 0),
    ensures
        turn.kept() + messages_requested(events) == turn.messages_sent(events) + turn.after_all(
            events,
        ).kept(),
    decreases events.len(),
{
    let requested = messages_requested(events);
    let sent = turn.messages_sent(events);
    let kept = turn.after_all(events).kept();
    if events.len() > 0 {
        let earlier = events.drop_last();
        let event = events.last();
        let before = turn.after_all(earlier);
        assert forall|i: int| 0 <= i < earlier.len() implies (#[trigger] earlier[i] matches
            Event::Request(message) ==> message@.len() > 0) by {
            assert(earlier[i] == events[i]);
        }
        messages_are_sent_once_and_in_order(turn, earlier);
        turn_stays_wf_after_all(turn, earlier);
        assert(event == events[events.len() - 1]);
        match event {
            Event::Request(message) => {
                assert(before.kept() =~= Seq::<Seq<u8>>::empty());
                assert(turn.kept() + requested =~= (turn.kept() + messages_requested(earlier)).push(
                    message@,
                ));
                assert(kept =~= seq![message@]);
                assert(turn.messages_sent(earlier) + before.kept() =~= turn.messages_sent(earlier));
            },
            Event::Echoed(echo) if is_echo(before.to_send, echo) => {
                assert(before.to_send.len() > 0) by {
                    transmitted_message_is_not_empty(turn, earlier);
                }
                assert(kept =~= Seq::<Seq<u8>>::empty());
                assert(sent =~= turn.messages_sent(earlier) + before.kept());
                assert(sent + kept =~= sent);
            },
            _ => {
                assert(kept == before.kept());
            },
        }
    } else {
        assert(turn.kept() + requested =~= turn.kept());
        assert(sent + kept =~= kept);
    }
}

/// Where no empty message was asked for, none is being sent.
proof fn transmitted_message_is_not_empty(turn: Turn, events: Seq<Event>)
    requires
        turn.wf(),
        turn.expects_all(events),
        turn.action is Listen || turn.to_send.len() > 0,
        forall|i: int|
            0 <= i < events.len() ==> (#[trigger] events[i] matches Event::Request(message)
                ==> message@.len() > 0),
    ensures
        turn.after_all(events).action is Listen || turn.after_all(events).to_send.len() > 0,
    decreases events.len(),
{
    if events.len() > 0 {
        let earlier = events.drop_last();
        assert forall|i: int| 0 <= i < earlier.len() implies (#[trigger] earlier[i] matches
            Event::Request(message) ==> message@.len() > 0) by {
            assert(earlier[i] == events[i]);
        }
        transmitted_message_is_not_empty(turn, earlier);
        turn_stays_wf_after_all(turn, earlier);
        assert(events.last() == events[events.len() - 1]);
    }
}

/// What is heard on the bus goes to the parser, each time the whole of it and in order, also while
/// a message is kept; and nothing else does.
pub proof fn heard_bytes_reach_the_parser(turn: Turn, event: Event)
    requires
        turn.expects(event),
    ensures
        ({
            let parser = turn.caught_up();
            let next = turn.after(event).caught_up();
            match event {
                Event::Heard(bytes) => next.pending == parser.fed(bytes@).pending && next.offered
                    == parser.fed(bytes@).offered,
                _ => next.pending == parser.pending && next.offered == parser.offered,
            }
        }),
{
}

/// The tries are counted from when a message could not be sent until it is sent: whoever starts
/// with none counted has none counted whenever no message is tried again.
pub proof fn tries_are_forgotten_with_the_message(turn: Turn, event: Event)
    requires
        turn.wf(),
        turn.expects(event),
        !turn.retrying ==> turn.backoff.current_retries == 0,
    ensures
        !turn.after(event).retrying ==> turn.after(event).backoff.current_retries == 0,
{
}

/// A message is tried again, as it is, unless exactly its own bytes were heard after it: where
/// reading the echo failed, where it did not come in time, and where other bytes were heard, be
/// they more, fewer or different ones. Nothing else changes.
pub proof fn message_without_its_echo_is_tried_again(turn: Turn, echo: Echo)
    requires
        turn.action is Transmit,
        turn.to_send.len() > 0,
        match echo {
            Echo::Heard(heard) => heard@ != turn.to_send,
            Echo::Failed => true,
            Echo::TimedOut => true,
        },
    ensures
        turn.expects(Event::Echoed(echo)),
        turn.after(Event::Echoed(echo)).to_send == turn.to_send,
        turn.after(Event::Echoed(echo)) == (Turn { action: Action::Read, retrying: true, ..turn }),
{
}

/// A message is done with once exactly its own bytes were heard after it: it is no longer kept,
/// another may come, and the tries are forgotten if it had to be tried again. What came from the
/// bus is not touched.
pub proof fn message_with_its_echo_is_done_with(turn: Turn, heard: Vec<u8>)
    requires
        turn.action is Transmit,
        heard@ == turn.to_send,
    ensures
        ({
            let event = Event::Echoed(Echo::Heard(heard));
            let after = turn.after(event);
            &&& turn.expects(event)
            &&& after.action is Listen
            &&& !after.retrying
            &&& after.to_send.len() == 0
            &&& after.heard == turn.heard
            &&& after.pending == turn.pending
            &&& after.offered == turn.offered
            &&& after.backoff.current_retries == if turn.retrying {
                0
            } else {
                turn.backoff.current_retries
            }
            &&& after.backoff == (Backoff {
                current_retries: after.backoff.current_retries,
                ..turn.backoff
            })
        }),
{
}

/// A message is not sent, and tried again, if the carrier sense timer runs or there are bytes to
/// read. Nothing else changes.
pub proof fn message_for_a_busy_bus_is_tried_again(turn: Turn, event: Event)
    requires
        turn.to_send.len() > 0,
        match event {
            Event::Line(timer) => turn.action is SenseLine && timer.count != 0,
            Event::Ready(ready) => turn.action is CheckReady && ready == Some(true),
            _ => false,
        },
    ensures
        turn.expects(event),
        turn.after(event) == (Turn { action: Action::Read, retrying: true, ..turn }),
{
}

/// A message for an idle bus is sent: one that is asked for is taken as it is, the carrier sense
/// timer is looked at, then, if it is stopped, whether there are bytes to read, and then, if there
/// are none or it is not known, the message is transmitted. Nothing else changes on the way.
pub proof fn message_for_an_idle_bus_is_transmitted(
    turn: Turn,
    message: Vec<u8>,
    ready: Option<bool>,
)
    requires
        turn.action is Listen,
        ready != Some(true),
        message@.len() <= 1500,
    ensures
        ({
            let asked = turn.after(Event::Request(message));
            let sensed = asked.after(Event::Line(CarrierSenseTimer { count: 0 }));
            let free = sensed.after(Event::Ready(ready));
            &&& turn.expects(Event::Request(message))
            &&& asked.expects(Event::Line(CarrierSenseTimer { count: 0 }))
            &&& sensed.expects(Event::Ready(ready))
            &&& asked == (Turn { action: Action::SenseLine, to_send: message@, ..turn })
            &&& sensed == (Turn { action: Action::CheckReady, ..asked })
            &&& free == (Turn { action: Action::Transmit, ..asked })
        }),
{
}

/// The same holds of a message that is tried again.
pub proof fn message_is_transmitted_when_the_bus_is_idle_again(turn: Turn, ready: Option<bool>)
    requires
        turn.action is SenseLine,
        ready != Some(true),
        turn.to_send.len() <= 1500,
    ensures
        ({
            let sensed = turn.after(Event::Line(CarrierSenseTimer { count: 0 }));
            &&& turn.expects(Event::Line(CarrierSenseTimer { count: 0 }))
            &&& sensed.expects(Event::Ready(ready))
            &&& sensed == (Turn { action: Action::CheckReady, ..turn })
            &&& sensed.after(Event::Ready(ready)) == (Turn { action: Action::Transmit, ..turn })
        }),
{
}

/// A message of any length can be asked for: its length only decides whether it can be transmitted.
pub proof fn messages_of_any_length_are_taken(turn: Turn, message: Vec<u8>)
    requires
        turn.action is Listen,
    ensures
        turn.expects(Event::Request(message)),
        turn.after(Event::Request(message)) == (Turn {
            action: Action::SenseLine,
            to_send: message@,
            ..turn
        }),
        turn.after(Event::Request(message)).expects(
            Event::Line(CarrierSenseTimer { count: 0 }),
        ),
        turn.after(Event::Request(message)).after(
            Event::Line(CarrierSenseTimer { count: 0 }),
        ).expects(Event::Ready(Some(true))),
{
}

/// A message is tried again after the next bytes from the bus and a wait: the bytes are kept, a
/// random number is drawn, the wait is the base wait for each counted try and one more and what the
/// random number leaves, the try is counted, and after the wait the bytes go to the parser and the
/// bus is looked at again. The message stays as it is.
pub proof fn message_is_tried_again_after_a_wait(turn: Turn, bytes: Vec<u8>, random: u32)
    requires
        turn.wf(),
        turn.action is Read,
    ensures
        ({
            let heard = turn.after(Event::Heard(bytes));
            let drawn = heard.after(Event::Random(random));
            let paused = drawn.after(Event::Paused);
            let parsed = parse_bytes(turn.pending, turn.offered, bytes@);
            &&& turn.expects(Event::Heard(bytes))
            &&& heard.expects(Event::Random(random))
            &&& drawn.expects(Event::Paused)
            &&& heard == (Turn { action: Action::DrawRandom, heard: bytes@, ..turn })
            &&& drawn.action matches Action::Pause(wait) && wait.ticks
                == turn.backoff.base_backoff * (turn.backoff.current_retries + 1) + random
                % turn.backoff.random_component
            &&& drawn == (Turn {
                action: drawn.action,
                heard: bytes@,
                backoff: turn.backoff.next(),
                ..turn
            })
            &&& paused == (Turn {
                action: Action::SenseLine,
                heard: bytes@,
                pending: parsed.pending,
                offered: parsed.offered,
                backoff: turn.backoff.next(),
                ..turn
            })
        }),
{
    crate::ibus_redirect::backoff::wait_is_bounded(turn.backoff, random);
}

/// Bytes that come while no message is kept go to the parser at once, and a read that fails changes
/// nothing, while a message is kept or not.
pub proof fn bytes_go_to_the_parser(turn: Turn, bytes: Vec<u8>)
    ensures
        turn.action is Listen ==> turn.expects(Event::Heard(bytes)) && turn.after(
            Event::Heard(bytes),
        ) == (Turn {
            pending: parse_bytes(turn.pending, turn.offered, bytes@).pending,
            offered: parse_bytes(turn.pending, turn.offered, bytes@).offered,
            ..turn
        }),
        turn.action is Listen || turn.action is Read ==> turn.expects(Event::ReadFailed)
            && turn.after(Event::ReadFailed) == turn,
{
}

/// An empty message on a busy bus, or without its echo, is dropped, as there is nothing to send.
pub proof fn empty_message_is_not_tried_again(turn: Turn, event: Event)
    requires
        turn.to_send.len() == 0,
        match event {
            Event::Line(timer) => turn.action is SenseLine && timer.count != 0,
            Event::Ready(ready) => turn.action is CheckReady && ready == Some(true),
            Event::Echoed(echo) => turn.action is Transmit && match echo {
                Echo::Heard(heard) => heard@.len() > 0,
                _ => true,
            },
            _ => false,
        },
    ensures
        turn.expects(event),
        turn.after(event) == (Turn { action: Action::Listen, ..turn }),
{
}

/// Whoever starts to listen with nothing to send is consistent, if there is a random component and
/// no wait is too long.
pub proof fn listening_is_consistent(turn: Turn)
    requires
        turn.action is Listen,
        !turn.retrying,
        turn.to_send.len() == 0,
        turn.backoff.random_component > 0,
        turn.backoff.base_backoff * (turn.backoff.max_retries + 1) + turn.backoff.random_component
            <= u64::MAX,
        turn.backoff.current_retries <= turn.backoff.max_retries,
    ensures
        turn.wf(),
{
}

} // verus!
