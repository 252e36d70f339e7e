//! Moves frames between the host and the network stack of this device.

use vstd::prelude::*;

verus! {

/// The longest frame.
pub const MTU: usize = 1514;

/// Whether the host is there.
#[derive(Clone, Copy, Debug, PartialEq, Eq, Structural)]
pub enum LinkState {
    /// It is not, and is waited for.
    Down,
    /// It is, and frames are read from it.
    Up,
}

/// What came of waiting for the host, or of reading from it.
#[derive(Clone, Copy, Debug, PartialEq, Eq, Structural)]
pub enum UsbEvent {
    /// The host has connected.
    Connected,
    /// A frame of so many bytes was read.
    Received(usize),
    /// Reading a frame failed.
    ReadFailed,
}

/// The receiving side of the connection to the host.
pub struct UsbReception {
    link_state: LinkState,
}

impl UsbReception {
    /// Whether the host is there.
    pub closed spec fn spec_link_state(&self) -> LinkState {
        self.link_state
    }

    /// Waits for the host first.
    pub fn new() -> (reception: Self)
        ensures
            reception.spec_link_state() == LinkState::Down,
    {
        Self { link_state: LinkState::Down }
    }

    /// Whether the host is there: if not, it is to be waited for, else a frame is to be read.
    pub fn link_state(&self) -> (state: LinkState)
        ensures
            state == self.spec_link_state(),
    {
        self.link_state
    }

    /// Takes in what came of it. The length of a frame that is to go on to the network stack is
    /// returned. A failed read means that the host is gone.
    pub fn handle(&mut self, event: UsbEvent) -> (received: Option<usize>)
        requires
            (old(self).spec_link_state() is Down) == (event is Connected),
        ensures
            final(self).spec_link_state() == if event is ReadFailed {
                LinkState::Down
            } else {
                LinkState::Up
            },
            received == match event {
                UsbEvent::Received(len) => Some(len),
                _ => None,
            },
    {
        match event {
            UsbEvent::Connected => {
                self.link_state = LinkState::Up;
                None
            },
            UsbEvent::Received(len) => Some(len),
            UsbEvent::ReadFailed => {
                self.link_state = LinkState::Down;
                None
            },
        }
    }
}

/// Where a frame for the host comes from.
#[derive(Clone, Copy, Debug, PartialEq, Eq, Structural)]
pub enum FrameSource {
    /// From the network stack of this device, which waits to get its buffer back.
    Stack,
    /// From the bus.
    Ibus,
}

/// Whether the network stack is to be told when a frame has been sent, or has failed to be.
pub fn should_signal(source: FrameSource) -> (signal: bool)
    ensures
        signal == (source is Stack),
{
    match source {
        FrameSource::Stack => true,
        FrameSource::Ibus => false,
    }
}

/// What is to be done next.
#[derive(Clone, Copy, Debug, PartialEq, Eq, Structural)]
pub enum SendingAction {
    /// Wait for a frame from the network stack or from the bus, whichever comes first.
    Wait,
    /// Write the frame to the host.
    Write,
    /// Tell the network stack that it has its buffer back.
    Signal,
}

/// What came of it.
#[derive(Debug, PartialEq, Eq)]
pub enum SendingEvent {
    /// This frame came from there.
    Frame(FrameSource, Vec<u8>),
    /// Writing the frame succeeded, or failed.
    Written(bool),
    /// The network stack was told.
    Signalled,
}

/// The sending side of the connection to the host.
pub struct UsbSending {
    action: SendingAction,
    source: FrameSource,
    frame: Vec<u8>,
}

/// What a `UsbSending` knows.
pub struct Sending {
    /// What is to be done next.
    pub action: SendingAction,
    /// Where the last frame came from.
    pub source: FrameSource,
    /// The frame to write, or the last one that was.
    pub frame: Seq<u8>,
}

impl View for UsbSending {
    type V = Sending;

    closed spec fn view(&self) -> Sending {
        Sending { action: self.action, source: self.source, frame: self.frame@ }
    }
}

impl Sending {
    /// Only the network stack is told of its frames.
    pub open spec fn wf(self) -> bool {
        self.action is Signal ==> self.source is Stack
    }

    /// Whether an event can come of what was to be done.
    pub open spec fn expects(self, event: SendingEvent) -> bool {
        match self.action {
            SendingAction::Wait => event is Frame,
            SendingAction::Write => event is Written,
            SendingAction::Signal => event is Signalled,
        }
    }

    /// What comes after an event. A frame is written once, whether or not that succeeds.
    pub open spec fn after(self, event: SendingEvent) -> Sending {
        match event {
            SendingEvent::Frame(source, frame) => Sending {
                action: SendingAction::Write,
                source,
                frame: frame@,
            },
            SendingEvent::Written(_) => Sending {
                action: if self.source is Stack {
                    SendingAction::Signal
                } else {
                    SendingAction::Wait
                },
                ..self
            },
            SendingEvent::Signalled => Sending { action: SendingAction::Wait, ..self },
        }
    }

    /// What comes after several events.
    pub open spec fn after_all(self, events: Seq<SendingEvent>) -> Sending
        decreases events.len(),
    {
        if events.len() == 0 {
            self
        } else {
            self.after_all(events.drop_last()).after(events.last())
        }
    }

    /// Whether each of several events can come when it does.
    pub open spec fn expects_all(self, events: Seq<SendingEvent>) -> bool
        decreases events.len(),
    {
        events.len() > 0 ==> self.expects_all(events.drop_last()) && self.after_all(
            events.drop_last(),
        ).expects(events.last())
    }

    /// The frame that is to be written, if there is one, and where it came from.
    pub open spec fn kept(self) -> Seq<(FrameSource, Seq<u8>)> {
        if self.action is Write {
            seq![(self.source, self.frame)]
        } else {
            Seq::empty()
        }
    }

    /// The frames that are written in the course of several events, and where they came from.
    pub open spec fn frames_written(self, events: Seq<SendingEvent>) -> Seq<
        (FrameSource, Seq<u8>),
    >
        decreases events.len(),
    {
        if events.len() == 0 {
            Seq::empty()
        } else {
            let before = self.frames_written(events.drop_last());
            match events.last() {
                SendingEvent::Written(_) => before + self.after_all(events.drop_last()).kept(),
                _ => before,
            }
        }
    }

    /// How many times the network stack is still to be told now.
    pub open spec fn owed(self) -> nat {
        if self.action is Signal {
            1
        } else {
            0
        }
    }
}

/// The frames that several events bring, and where they come from.
pub open spec fn frames_taken(events: Seq<SendingEvent>) -> Seq<(FrameSource, Seq<u8>)>
    decreases events.len(),
{
    if events.len() == 0 {
        Seq::empty()
    } else {
        let before = frames_taken(events.drop_last());
        match events.last() {
            SendingEvent::Frame(source, frame) => before.push((source, frame@)),
            _ => before,
        }
    }
}

/// How many times the network stack is told in the course of several events.
pub open spec fn signals(events: Seq<SendingEvent>) -> nat
    decreases events.len(),
{
    if events.len() == 0 {
        0
    } else {
        signals(events.drop_last()) + if events.last() is Signalled {
            1nat
        } else {
            0
        }
    }
}

/// How many of the frames came from the network stack.
pub open spec fn stack_frames(frames: Seq<(FrameSource, Seq<u8>)>) -> nat
    decreases frames.len(),
{
    if frames.len() == 0 {
        0
    } else {
        stack_frames(frames.drop_last()) + if frames.last().0 is Stack {
            1nat
        } else {
            0
        }
    }
}

impl UsbSending {
    /// Waits for a frame first.
    pub fn new() -> (sending: Self)
        ensures
            sending@.wf(),
            sending@ == (Sending {
                action: SendingAction::Wait,
                source: FrameSource::Ibus,
                frame: Seq::empty(),
            }),
    {
        let sending = Self {
            action: SendingAction::Wait,
            source: FrameSource::Ibus,
            frame: Vec::new(),
        };
        assert(sending@.frame =~= Seq::empty());
        sending
    }

    /// What is to be done next.
    pub fn action(&self) -> (action: SendingAction)
        ensures
            action == self@.action,
    {
        self.action
    }

    /// The frame to write.
    pub fn frame(&self) -> (frame: &[u8])
        ensures
            frame@ == self@.frame,
    {
        self.frame.as_slice()
    }

    /// Takes in what came of the last action.
    pub fn handle(&mut self, event: SendingEvent)
        requires
            old(self)@.wf(),
            old(self)@.expects(event),
        ensures
            final(self)@.wf(),
            final(self)@ == old(self)@.after(event),
    {
        match event {
            SendingEvent::Frame(source, frame) => {
                self.source = source;
                self.frame = frame;
                self.action = SendingAction::Write;
            },
            SendingEvent::Written(_) => {
                self.action = if should_signal(self.source) {
                    SendingAction::Signal
                } else {
                    SendingAction::Wait
                };
            },
            SendingEvent::Signalled => {
                self.action = SendingAction::Wait;
            },
        }
    }
}

/// Each frame is written to the host once, unchanged and in order, whether or not the writes
/// succeed: the frames that came are those that were written, and after them the one that is to be
/// written, if any.
pub proof fn frames_are_written_once_and_in_order(sending: Sending, events: Seq<SendingEvent>)
    requires
        sending.expects_all(events),
    ensures
        sending.kept() + frames_taken(events) == sending.frames_written(events)
            + sending.after_all(events).kept(),
    decreases events.len(),
{
    let taken = frames_taken(events);
    let written = sending.frames_written(events);
    let kept = sending.after_all(events).kept();
    if events.len() > 0 {
        let earlier = events.drop_last();
        let before = sending.after_all(earlier);
        frames_are_written_once_and_in_order(sending, earlier);
        match events.last() {
            SendingEvent::Frame(source, frame) => {
                assert(sending.kept() + taken =~= (sending.kept() + frames_taken(earlier)).push(
                    (source, frame@),
                ));
                assert(written + before.kept() =~= written);
                assert(kept =~= seq![(source, frame@)]);
            },
            SendingEvent::Written(_) => {
                assert(written + kept =~= written);
            },
            SendingEvent::Signalled => {
                assert(kept =~= before.kept());
            },
        }
    } else {
        assert(sending.kept() + taken =~= written + kept);
    }
}

/// Frames that are written one after the other are counted one by one.
proof fn one_more_frame(frames: Seq<(FrameSource, Seq<u8>)>, frame: (FrameSource, Seq<u8>))
    ensures
        stack_frames(frames + seq![frame]) == stack_frames(frames) + if frame.0 is Stack {
            1nat
        } else {
            0
        },
{
    assert((frames + seq![frame]).drop_last() =~= frames);
}

/// The network stack is told once of each of its frames after it was written, whether or not that
/// succeeded, before another frame is taken; and it is told of no other frames.
pub proof fn stack_is_told_once_of_each_frame(sending: Sending, events: Seq<SendingEvent>)
    requires
        sending.wf(),
        sending.expects_all(events),
    ensures
        sending.owed() + stack_frames(sending.frames_written(events)) == signals(events)
            + sending.after_all(events).owed(),
    decreases events.len(),
{
    if events.len() > 0 {
        let earlier = events.drop_last();
        let before = sending.after_all(earlier);
        stack_is_told_once_of_each_frame(sending, earlier);
        if events.last() is Written {
            one_more_frame(sending.frames_written(earlier), (before.source, before.frame));
        }
    }
}

/// A frame of any length, from either side, is taken as it is and written next; after it was
/// written, well or not, the network stack is told if and only if the frame was its own, and then
/// another frame is waited for.
pub proof fn frame_is_written_and_the_stack_told(
    sending: Sending,
    source: FrameSource,
    frame: Vec<u8>,
    succeeds: bool,
)
    requires
        sending.action is Wait,
    ensures
        ({
            let taken = sending.after(SendingEvent::Frame(source, frame));
            let written = taken.after(SendingEvent::Written(succeeds));
            &&& sending.expects(SendingEvent::Frame(source, frame))
            &&& taken.expects(SendingEvent::Written(succeeds))
            &&& taken.action is Write
            &&& taken.frame == frame@
            &&& source == FrameSource::Ibus ==> written.action is Wait
            &&& source == FrameSource::Stack ==> written.action is Signal && written.expects(
                SendingEvent::Signalled,
            ) && written.after(SendingEvent::Signalled).action is Wait
        }),
{
}

} // verus!
