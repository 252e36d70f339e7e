use embassy_sync::blocking_mutex::raw::NoopRawMutex;
use embassy_sync::channel::Channel;
use ibus_adapter::carrier_sense::CarrierSenseTimer;
use ibus_adapter::channel::{ChannelSender, MAX_MESSAGES_CHANNEL};
use ibus_adapter::ibus_redirect::backoff::{CarrierSenseBackoffCaluator, Duration};
use ibus_adapter::ibus_redirect::bus::{
    may_write_to_internal_bus, write_to_internal_bus, Echo, InternalBusWriteError,
    ECHO_BUFFER_SIZE,
};
use ibus_adapter::ibus_redirect::half_duplex::{Action, Event, HalfDuplex};
use ibus_adapter::ipv4_packet_reconstructor::Ipv4PacketParser;

type MessageChannel = Channel<NoopRawMutex, Vec<u8>, MAX_MESSAGES_CHANNEL>;

const IDLE: CarrierSenseTimer = CarrierSenseTimer { count: 0 };
const BUSY: CarrierSenseTimer = CarrierSenseTimer { count: 3 };

fn channel() -> &'static MessageChannel {
    Box::leak(Box::new(MessageChannel::new()))
}

fn half_duplex(channel: &'static MessageChannel) -> HalfDuplex {
    HalfDuplex::new(
        Ipv4PacketParser::new(ChannelSender::new(channel.dyn_sender())),
        CarrierSenseBackoffCaluator::new(2, Duration { ticks: 1000 }, 500),
    )
}

/// A packet whose header checksum is well known, without its payload.
fn bus_frame() -> Vec<u8> {
    let mut frame = vec![
        0x45, 0x00, 0x00, 0x73, 0x00, 0x00, 0x40, 0x00, 0x40, 0x11, 0xb8, 0x61, 0xc0, 0xa8, 0x00,
        0x01, 0xc0, 0xa8, 0x00, 0xc7,
    ];
    frame.extend_from_slice(&[0x5a; 97]);
    frame
}

#[test]
fn wait_grows_with_each_try_up_to_the_limit() {
    let mut calculator = CarrierSenseBackoffCaluator::new(2, Duration { ticks: 1000 }, 500);
    assert_eq!(calculator.backoff(1234), Duration { ticks: 1234 });
    assert_eq!(calculator.backoff(499), Duration { ticks: 2499 });
    assert_eq!(calculator.backoff(500), Duration { ticks: 3000 });
    assert_eq!(calculator.backoff(u32::MAX), Duration { ticks: 3295 });
    assert_eq!(calculator.backoff(0), Duration { ticks: 3000 });
    calculator.reset();
    assert_eq!(calculator.backoff(0), Duration { ticks: 1000 });
}

#[test]
fn without_retries_the_wait_does_not_grow() {
    let mut calculator = CarrierSenseBackoffCaluator::new(0, Duration { ticks: 10 }, 1);
    assert_eq!(calculator.backoff(77), Duration { ticks: 10 });
    assert_eq!(calculator.backoff(78), Duration { ticks: 10 });
}

#[test]
fn bytes_to_read_are_a_collision() {
    assert_eq!(may_write_to_internal_bus(Some(true)), Err(InternalBusWriteError::Collision));
    assert_eq!(may_write_to_internal_bus(Some(false)), Ok(()));
    assert_eq!(may_write_to_internal_bus(None), Ok(()));
}

#[test]
fn message_is_sent_if_its_echo_is_the_same() {
    assert_eq!(write_to_internal_bus(&[1, 2, 3], &Echo::Heard(vec![1, 2, 3])), Ok(()));
    assert_eq!(write_to_internal_bus(&[], &Echo::Heard(vec![])), Ok(()));
}

#[test]
fn longest_message_is_sent() {
    let message = vec![6; ECHO_BUFFER_SIZE];
    assert_eq!(message.len(), 1500);
    assert_eq!(write_to_internal_bus(&message, &Echo::Heard(message.clone())), Ok(()));

    let mut bus = half_duplex(channel());
    bus.handle(Event::Request(message.clone()));
    bus.handle(Event::Line(IDLE));
    bus.handle(Event::Ready(Some(false)));
    assert_eq!(bus.action(), Action::Transmit);
    bus.handle(Event::Echoed(Echo::Heard(message)));
    assert_eq!(bus.action(), Action::Listen);
}

#[test]
fn longer_message_is_kept_on_a_busy_bus() {
    let mut bus = half_duplex(channel());
    bus.handle(Event::Request(vec![6; 1502]));
    bus.handle(Event::Line(IDLE));
    bus.handle(Event::Ready(Some(true)));
    assert_eq!(bus.action(), Action::Read);
    assert_eq!(bus.to_send().len(), 1502);
}

#[test]
fn message_is_not_sent_otherwise() {
    let sent = [1, 2, 3];
    assert_eq!(
        write_to_internal_bus(&sent, &Echo::Heard(vec![1, 2, 4])),
        Err(InternalBusWriteError::Collision)
    );
    assert_eq!(
        write_to_internal_bus(&sent, &Echo::Heard(vec![1, 2])),
        Err(InternalBusWriteError::Collision)
    );
    assert_eq!(write_to_internal_bus(&sent, &Echo::Failed), Err(InternalBusWriteError::UartError));
    assert_eq!(
        write_to_internal_bus(&sent, &Echo::TimedOut),
        Err(InternalBusWriteError::IbusDisconnected)
    );
}

#[test]
fn heard_packets_are_handed_on() {
    let channel = channel();
    let mut bus = half_duplex(channel);
    let frame = bus_frame();
    bus.handle(Event::Heard(frame[..50].to_vec()));
    assert_eq!(bus.action(), Action::Listen);
    bus.handle(Event::ReadFailed);
    assert_eq!(bus.action(), Action::Listen);
    bus.handle(Event::Heard(frame[50..].to_vec()));
    assert_eq!(channel.try_receive().unwrap(), frame);
}

#[test]
fn message_is_sent_at_once_on_an_idle_bus() {
    let mut bus = half_duplex(channel());
    assert_eq!(bus.action(), Action::Listen);
    bus.handle(Event::Request(vec![1, 2]));
    assert_eq!(bus.action(), Action::SenseLine);
    bus.handle(Event::Line(IDLE));
    assert_eq!(bus.action(), Action::CheckReady);
    bus.handle(Event::Ready(Some(false)));
    assert_eq!(bus.action(), Action::Transmit);
    assert_eq!(bus.to_send(), [1, 2]);
    bus.handle(Event::Echoed(Echo::Heard(vec![1, 2])));
    assert_eq!(bus.action(), Action::Listen);
    assert_eq!(bus.to_send(), []);
}

#[test]
fn message_is_kept_and_tried_again() {
    let channel = channel();
    let mut bus = half_duplex(channel);
    bus.handle(Event::Request(vec![1, 2]));
    bus.handle(Event::Line(BUSY));
    assert_eq!(bus.action(), Action::Read);
    assert_eq!(bus.to_send(), [1, 2]);
    bus.handle(Event::ReadFailed);
    assert_eq!(bus.action(), Action::Read);

    let frame = bus_frame();
    bus.handle(Event::Heard(frame.clone()));
    assert_eq!(bus.action(), Action::DrawRandom);
    assert!(channel.try_receive().is_err());
    bus.handle(Event::Random(7));
    assert_eq!(bus.action(), Action::Pause(Duration { ticks: 1007 }));
    bus.handle(Event::Paused);
    assert_eq!(channel.try_receive().unwrap(), frame);
    assert_eq!(bus.action(), Action::SenseLine);
    bus.handle(Event::Line(IDLE));
    bus.handle(Event::Ready(Some(true)));
    assert_eq!(bus.action(), Action::Read);

    bus.handle(Event::Heard(vec![]));
    bus.handle(Event::Random(0));
    assert_eq!(bus.action(), Action::Pause(Duration { ticks: 2000 }));
    bus.handle(Event::Paused);
    bus.handle(Event::Line(IDLE));
    bus.handle(Event::Ready(None));
    bus.handle(Event::Echoed(Echo::Heard(vec![1, 3])));
    assert_eq!(bus.action(), Action::Read);
    assert_eq!(bus.to_send(), [1, 2]);

    bus.handle(Event::Heard(vec![]));
    bus.handle(Event::Random(0));
    assert_eq!(bus.action(), Action::Pause(Duration { ticks: 3000 }));
    bus.handle(Event::Paused);
    bus.handle(Event::Line(IDLE));
    bus.handle(Event::Ready(Some(false)));
    bus.handle(Event::Echoed(Echo::Heard(vec![1, 2])));
    assert_eq!(bus.action(), Action::Listen);
    assert_eq!(bus.to_send(), []);
}

#[test]
fn tries_are_forgotten_when_a_message_is_sent() {
    let mut bus = half_duplex(channel());
    for _ in 0..2 {
        bus.handle(Event::Request(vec![5]));
        bus.handle(Event::Line(IDLE));
        bus.handle(Event::Ready(None));
        bus.handle(Event::Echoed(Echo::TimedOut));
        bus.handle(Event::Heard(vec![]));
        bus.handle(Event::Random(3));
        assert_eq!(bus.action(), Action::Pause(Duration { ticks: 1003 }));
        bus.handle(Event::Paused);
        bus.handle(Event::Line(IDLE));
        bus.handle(Event::Ready(None));
        bus.handle(Event::Echoed(Echo::Heard(vec![5])));
        assert_eq!(bus.action(), Action::Listen);
    }
}

#[test]
fn empty_message_is_dropped_on_a_busy_bus() {
    let mut bus = half_duplex(channel());
    bus.handle(Event::Request(vec![]));
    bus.handle(Event::Line(BUSY));
    assert_eq!(bus.action(), Action::Listen);
}
