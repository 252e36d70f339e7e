use ibus_adapter::carrier_sense::{CarrierSenseTimer, WAIT_MICROSECONDS};
use ibus_adapter::usb_setup::{
    should_signal, FrameSource, LinkState, SendingAction, SendingEvent, UsbEvent, UsbReception,
    UsbSending, MTU,
};

#[test]
fn link_is_up_from_connection_to_failure() {
    let mut reception = UsbReception::new();
    assert_eq!(reception.link_state(), LinkState::Down);
    assert_eq!(reception.handle(UsbEvent::Connected), None);
    assert_eq!(reception.link_state(), LinkState::Up);
    assert_eq!(reception.handle(UsbEvent::Received(60)), Some(60));
    assert_eq!(reception.link_state(), LinkState::Up);
    assert_eq!(reception.handle(UsbEvent::ReadFailed), None);
    assert_eq!(reception.link_state(), LinkState::Down);
    assert_eq!(reception.handle(UsbEvent::Connected), None);
    assert_eq!(reception.handle(UsbEvent::Received(MTU)), Some(1514));
}

#[test]
fn only_the_stack_is_signalled() {
    assert!(should_signal(FrameSource::Stack));
    assert!(!should_signal(FrameSource::Ibus));
}

#[test]
fn frames_are_written_once_and_the_stack_is_told() {
    let mut sending = UsbSending::new();
    for succeeds in [true, false] {
        assert_eq!(sending.action(), SendingAction::Wait);
        sending.handle(SendingEvent::Frame(FrameSource::Stack, vec![1, 2, 3]));
        assert_eq!(sending.action(), SendingAction::Write);
        assert_eq!(sending.frame(), [1, 2, 3]);
        sending.handle(SendingEvent::Written(succeeds));
        assert_eq!(sending.action(), SendingAction::Signal);
        sending.handle(SendingEvent::Signalled);

        assert_eq!(sending.action(), SendingAction::Wait);
        sending.handle(SendingEvent::Frame(FrameSource::Ibus, vec![4]));
        assert_eq!(sending.action(), SendingAction::Write);
        assert_eq!(sending.frame(), [4]);
        sending.handle(SendingEvent::Written(succeeds));
    }
    assert_eq!(sending.action(), SendingAction::Wait);
}

#[test]
fn line_is_idle_when_the_timer_is_stopped() {
    assert_eq!(WAIT_MICROSECONDS, 8);
    assert!(CarrierSenseTimer { count: 0 }.line_idle());
    assert!(!CarrierSenseTimer { count: 1 }.line_idle());
    assert!(!CarrierSenseTimer { count: 8 }.line_idle());
}
