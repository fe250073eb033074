use std::collections::BTreeSet;

use cachybridge::backend::BackendErrorKind;
use cachybridge::codes::{has_code, held_codes, insert_code, remove_code};
use cachybridge::libei_capture::{
    capabilities, checked_evdev, decode_input_event, device_type_name, duration_to_poll_ms,
    input_kind, receiver_capabilities, AbsoluteUpdate, CapturedEvent, DeviceMetadata, EventFields,
    Rounded,
    HandshakeStep, HandshakeWait, InputKind, MetadataEvent, Receiver, SeatMetadata, CAP_BUTTON,
    CAP_KEYBOARD, CAP_POINTER, CAP_POINTER_ABSOLUTE, CAP_SCROLL, CAP_TEXT, CAP_TOUCH,
    EI_EVENT_BUTTON_BUTTON, EI_EVENT_KEYBOARD_KEY, EI_EVENT_POINTER_MOTION_ABSOLUTE,
    EI_EVENT_SCROLL_DISCRETE, EI_EVENT_TOUCH_MOTION,
};
use cachybridge::libei_inject::{
    sender_capabilities, update_pressed, validate_axis_pair, InputState, Sender, SenderCall,
    SenderEvent, SenderStep, MAX_AXIS_DELTA, POINTER_TEST_DELTA,
};

fn fields() -> EventFields {
    EventFields {
        sequence: 0,
        time_micros: 0,
        code: 0,
        pressed: false,
        dx: Rounded::Whole(0),
        dy: Rounded::Whole(0),
        moved_x: false,
        moved_y: false,
        absolute: AbsoluteUpdate::Invalid,
        discrete_x: 0,
        discrete_y: 0,
        stop_x: false,
        stop_y: false,
        contact: 0,
        contact_x: 0,
        contact_y: 0,
        zoom_steps: 0,
        cancelled: false,
    }
}

fn device(capabilities: Vec<&'static str>) -> DeviceMetadata {
    DeviceMetadata {
        name: "virtual".to_owned(),
        device_type: "virtual",
        capabilities,
        regions: Vec::new(),
    }
}

/// A sender with one resumed device that can do everything.
fn ready_sender() -> Sender {
    let mut sender = Sender::new();
    sender.process_event(SenderEvent::Connect);
    sender.process_event(SenderEvent::DeviceAdded(Some((
        5,
        CAP_POINTER | CAP_KEYBOARD | CAP_BUTTON | CAP_SCROLL,
        device(vec!["pointer", "keyboard", "scroll", "button"]),
    ))));
    sender.process_event(SenderEvent::DeviceResumed(5));
    sender
}

#[test]
fn poll_timeout_rounds_sub_millisecond_up_and_saturates() {
    assert_eq!(duration_to_poll_ms(std::time::Duration::ZERO.as_nanos()), 0);
    assert_eq!(duration_to_poll_ms(std::time::Duration::from_nanos(1).as_nanos()), 1);
    assert_eq!(duration_to_poll_ms(std::time::Duration::from_millis(25).as_nanos()), 25);
    assert_eq!(duration_to_poll_ms(std::time::Duration::MAX.as_nanos()), i32::MAX);
}

#[test]
fn capability_names_are_stable_and_filtered() {
    let available = CAP_POINTER | CAP_KEYBOARD | CAP_BUTTON;
    assert_eq!(capabilities(available), vec!["pointer", "keyboard", "button"]);
}

#[test]
fn evdev_codes_that_do_not_fit_the_wire_are_rejected() {
    assert_eq!(checked_evdev(700, "key").unwrap(), 700);
    assert!(checked_evdev(u32::from(u16::MAX) + 1, "key").is_err());
}

#[test]
fn pointer_proof_is_small_and_net_zero() {
    let deltas = [POINTER_TEST_DELTA, -POINTER_TEST_DELTA];
    assert!(deltas.iter().all(|delta| delta.abs() <= 2));
    assert_eq!(deltas.into_iter().sum::<i32>(), 0);
    let calls = ready_sender().bounded_pointer_test().unwrap();
    assert_eq!(
        calls,
        vec![
            SenderCall::StartEmulating { device: 5, sequence: 1 },
            SenderCall::Motion { device: 5, dx: 2, dy: 0 },
            SenderCall::Frame { device: 5 },
            SenderCall::Motion { device: 5, dx: -2, dy: 0 },
            SenderCall::Frame { device: 5 },
        ]
    );
}

#[test]
fn sender_only_binds_requested_keyboard_pointer_capabilities() {
    let bound = sender_capabilities();
    assert_eq!(bound, vec![CAP_POINTER, CAP_KEYBOARD, CAP_BUTTON, CAP_SCROLL]);
    assert!(!bound.contains(&CAP_POINTER_ABSOLUTE));
    assert!(!bound.contains(&CAP_TOUCH));
    assert!(!bound.contains(&CAP_TEXT));
}

#[test]
fn unbounded_axis_values_are_rejected() {
    assert!(validate_axis_pair(10, -10, "motion").is_ok());
    assert!(validate_axis_pair(MAX_AXIS_DELTA, -MAX_AXIS_DELTA, "motion").is_ok());
    assert!(validate_axis_pair(MAX_AXIS_DELTA + 1, 0, "motion").is_err());
    assert!(validate_axis_pair(0, i32::MIN, "motion").is_err());
}

#[test]
fn pressed_ledger_rejects_duplicate_and_unmatched_transitions() {
    let mut pressed = BTreeSet::new();
    assert!(update_pressed(&mut pressed, 30, InputState::Pressed, "key").is_ok());
    assert!(update_pressed(&mut pressed, 30, InputState::Pressed, "key").is_err());
    assert!(update_pressed(&mut pressed, 30, InputState::Released, "key").is_ok());
    assert!(update_pressed(&mut pressed, 30, InputState::Released, "key").is_err());
}

#[test]
fn events_are_decoded_by_their_type() {
    assert_eq!(
        decode_input_event(
            EI_EVENT_KEYBOARD_KEY,
            EventFields { code: 30, pressed: true, ..fields() }
        ),
        Ok(Some(CapturedEvent::Key { evdev: 30, pressed: true }))
    );
    assert_eq!(
        decode_input_event(
            EI_EVENT_SCROLL_DISCRETE,
            EventFields { discrete_x: 120, discrete_y: -120, ..fields() }
        ),
        Ok(Some(CapturedEvent::ScrollDiscrete { horizontal: 120, vertical: -120 }))
    );
    assert_eq!(
        decode_input_event(
            EI_EVENT_TOUCH_MOTION,
            EventFields { contact: 4, contact_x: 5, contact_y: 6, zoom_steps: -1, ..fields() }
        ),
        Ok(Some(CapturedEvent::TouchMotion { id: 4, x: 5, y: 6, zoom_steps: -1 }))
    );
    assert_eq!(
        decode_input_event(
            EI_EVENT_POINTER_MOTION_ABSOLUTE,
            EventFields { absolute: AbsoluteUpdate::Origin, ..fields() }
        ),
        Ok(Some(CapturedEvent::AbsolutePointer(AbsoluteUpdate::Origin)))
    );
    assert!(decode_input_event(
        EI_EVENT_BUTTON_BUTTON,
        EventFields { code: 70_000, ..fields() }
    )
    .is_err());
    assert_eq!(decode_input_event(9_999, fields()), Ok(None));
    assert_eq!(input_kind(EI_EVENT_BUTTON_BUTTON), Some(InputKind::Button));
    assert_eq!(device_type_name(1), "virtual");
    assert_eq!(device_type_name(2), "physical");
    assert_eq!(device_type_name(3), "unknown");
}

#[test]
fn the_receiver_waits_then_records_what_it_is_told() {
    let mut receiver = Receiver::new();
    assert_eq!(
        receiver.handshake(HandshakeWait::Connecting { remaining_nanos: Some(10) }),
        Ok(HandshakeStep::Dispatch { nanos: 10 })
    );
    assert_eq!(
        receiver
            .handshake(HandshakeWait::Connecting { remaining_nanos: None })
            .unwrap_err()
            .kind,
        BackendErrorKind::TimedOut
    );
    receiver.process_metadata_event(MetadataEvent::Connect, true);
    assert!(receiver.metadata().connected);
    assert_eq!(
        receiver.handshake(HandshakeWait::Connecting { remaining_nanos: Some(10) }),
        Ok(HandshakeStep::Announce)
    );
    let seat = SeatMetadata { name: "seat".to_owned(), capabilities: vec!["pointer"] };
    assert!(receiver.process_metadata_event(MetadataEvent::SeatAdded(Some(seat.clone())), true));
    assert_eq!(receiver.metadata().seats, vec![seat]);
    receiver.process_metadata_event(MetadataEvent::Disconnect, true);
    assert!(receiver.metadata().disconnected);
    assert!(receiver_capabilities().contains(&CAP_TOUCH));
}

#[test]
fn a_sender_needs_its_devices_before_it_is_ready() {
    let mut sender = Sender::new();
    assert_eq!(sender.handshake(Some(7)), Ok(SenderStep::Dispatch { nanos: 7 }));
    assert_eq!(sender.handshake(None).unwrap_err().kind, BackendErrorKind::TimedOut);
    assert!(sender.inject_key(30, InputState::Pressed).is_err());
    let effect = sender.process_event(SenderEvent::SeatAdded(Some(SeatMetadata {
        name: "seat".to_owned(),
        capabilities: Vec::new(),
    })));
    assert!(effect.bind);
    assert_eq!(ready_sender().handshake(None), Ok(SenderStep::Ready));
}

#[test]
fn injected_keys_are_paired_and_released_once() {
    let mut sender = ready_sender();
    assert_eq!(
        sender.inject_key(30, InputState::Pressed).unwrap(),
        vec![
            SenderCall::StartEmulating { device: 5, sequence: 1 },
            SenderCall::Key { device: 5, code: 30, pressed: true },
            SenderCall::Frame { device: 5 },
        ]
    );
    assert!(sender.inject_key(30, InputState::Pressed).is_err());
    assert!(sender.inject_key(0x300, InputState::Pressed).is_err());
    assert!(sender.inject_button(0x110, InputState::Released).is_err());
    sender.inject_button(0x110, InputState::Pressed).unwrap();
    assert_eq!(
        sender.inject_scroll(0, 3, true).unwrap(),
        vec![
            SenderCall::Scroll { device: 5, horizontal: 0, vertical: 3 },
            SenderCall::ScrollStop { device: 5, horizontal: false, vertical: true },
            SenderCall::Frame { device: 5 },
        ]
    );
    let released = sender.release_all();
    assert!(released.contains(&SenderCall::Key { device: 5, code: 30, pressed: false }));
    assert!(released.contains(&SenderCall::Button { device: 5, code: 0x110, pressed: false }));
    assert!(released.contains(&SenderCall::StopEmulating { device: 5 }));
    assert_eq!(sender.release_all(), vec![]);
    assert!(sender.inject_relative(MAX_AXIS_DELTA + 1, 0).is_err());
    sender.process_event(SenderEvent::DevicePaused(5));
    assert!(sender.inject_relative(1, 0).is_err());
    assert!(!sender.release_devices().is_empty());
    assert!(sender.release_devices().is_empty());
}

#[test]
fn the_held_codes_are_listed_in_order() {
    let mut codes = BTreeSet::new();
    for code in [272, 30, 48] {
        assert!(insert_code(&mut codes, code));
    }
    assert!(!insert_code(&mut codes, 30));
    assert!(has_code(&codes, 48));
    assert!(remove_code(&mut codes, 48));
    assert!(!remove_code(&mut codes, 48));
    assert_eq!(held_codes(&codes), vec![30, 272]);
}
