use std::collections::VecDeque;
use std::time::Duration;

use cachybridge::adapter::{
    capture_edge, captured_to_wire, is_expected_release_deactivation, relative_wire_events,
    ExitStep, EdgeReturnWatcher, InjectPlan, InputCaptureAdapter, RemoteDesktopInjector, TouchPlan,
};
use cachybridge::backend::{BackendError, BackendErrorKind};
use cachybridge::handoff::{Edge, HandoffController, HandoffState, Point, Rect};
use cachybridge::libei_capture::{AbsoluteUpdate, CapturedEvent, Rounded};
use cachybridge::libei_inject::InputState;
use cachybridge::pinch::{
    normalize_trackpad_coordinate, PinchContacts, PinchInput, PinchZoomTracker,
    RawTrackpadPinchCapture, ABS_MT_POSITION_X, ABS_MT_POSITION_Y, ABS_MT_SLOT, ABS_MT_TRACKING_ID,
};
use cachybridge::portal_spike::{CaptureEdge, CaptureSignal, CursorPosition};
use cachybridge::protocol::{Message, TouchPhase, WireEdge, WireInputEvent, WireTouchEvent};
use cachybridge::seamless::{
    CaptureBackend, CapturedInput, InjectBackend, MessageTransport, SeamlessClient, SeamlessError,
    SeamlessHost,
};
use cachybridge::transport::TransportError;

#[derive(Default)]
struct FakeCapture {
    activation: Option<Point>,
    began: bool,
    released: usize,
    restores: Vec<Option<Point>>,
    inputs: VecDeque<Option<CapturedInput>>,
}

impl CaptureBackend for FakeCapture {
    fn wait_for_left_activation(&mut self) -> Result<Point, BackendError> {
        self.activation
            .take()
            .ok_or_else(|| BackendError::new(BackendErrorKind::WouldBlock, "no activation"))
    }

    fn begin_remote_input(&mut self) -> Result<(), BackendError> {
        self.began = true;
        Ok(())
    }

    fn next_input(&mut self, _: Duration) -> Result<Option<CapturedInput>, BackendError> {
        Ok(self.inputs.pop_front().flatten())
    }

    fn return_to_local(&mut self, restore: Point) -> Result<(), BackendError> {
        self.released += 1;
        self.restores.push(Some(restore));
        Ok(())
    }

    fn release_local_input(&mut self, restore: Option<Point>) -> Result<(), BackendError> {
        self.released += 1;
        self.restores.push(restore);
        Ok(())
    }
}

#[derive(Default)]
struct FakeInject {
    prepared: Vec<Point>,
    motions: Vec<(i32, i32)>,
    inputs: Vec<WireInputEvent>,
    touches: Vec<WireTouchEvent>,
    releases: usize,
}

impl InjectBackend for FakeInject {
    fn prepare_entry(&mut self, entry: Point) -> Result<(), BackendError> {
        self.prepared.push(entry);
        Ok(())
    }

    fn inject_motion(&mut self, dx: i32, dy: i32) -> Result<(), BackendError> {
        self.motions.push((dx, dy));
        Ok(())
    }

    fn inject(&mut self, event: WireInputEvent) -> Result<(), BackendError> {
        self.inputs.push(event);
        Ok(())
    }

    fn inject_touch(&mut self, event: WireTouchEvent) -> Result<(), BackendError> {
        self.touches.push(event);
        Ok(())
    }

    fn release_all(&mut self) -> Result<(), BackendError> {
        self.releases += 1;
        Ok(())
    }
}

#[derive(Default)]
struct FakeTransport {
    sent: Vec<Message>,
    received: VecDeque<Message>,
}

impl MessageTransport for FakeTransport {
    fn send(&mut self, message: Message) -> Result<(), TransportError> {
        self.sent.push(message);
        Ok(())
    }

    fn receive(&mut self) -> Result<Message, TransportError> {
        self.received.pop_front().ok_or_else(|| TransportError::Io("test end".to_owned()))
    }

    fn poll_receive(&mut self) -> Result<Option<Message>, TransportError> {
        Ok(self.received.pop_front())
    }
}

fn controller() -> HandoffController {
    HandoffController::new(
        Rect::new(0, 0, 1_920, 1_080).unwrap(),
        Rect::new(-1_920, 0, 1_920, 1_080).unwrap(),
        Edge::Left,
    )
}

#[test]
fn normal_portal_deactivation_after_release_is_distinguished_from_loss() {
    assert!(is_expected_release_deactivation(Some(7), Some(7)));
    // Some portal backends omit activation_id on Deactivated. There can
    // be only one active capture, so it still safely acknowledges it.
    assert!(is_expected_release_deactivation(Some(7), None));
    assert!(!is_expected_release_deactivation(Some(7), Some(8)));
    assert!(!is_expected_release_deactivation(None, Some(7)));
}

#[test]
fn host_waits_for_ack_before_reading_or_sending_input() {
    let capture = FakeCapture {
        activation: Some(Point { x: 0, y: 540 }),
        ..Default::default()
    };
    let transport = FakeTransport {
        received: VecDeque::from([Message::EnterAck]),
        ..Default::default()
    };
    let mut host = SeamlessHost::new(controller(), capture, transport);
    host.activate_once().unwrap();
    assert_eq!(
        host.state(),
        HandoffState::RemoteActive {
            exit_edge: Edge::Left
        }
    );
    let (capture, transport) = host.into_parts();
    assert!(capture.began);
    assert_eq!(transport.sent, vec![Message::Enter { x: -1, y: 540 }]);
}

#[test]
fn host_reject_does_not_activate_or_forward() {
    let capture = FakeCapture {
        activation: Some(Point { x: 0, y: 10 }),
        ..Default::default()
    };
    let transport = FakeTransport {
        received: VecDeque::from([Message::EnterRejected]),
        ..Default::default()
    };
    let mut host = SeamlessHost::new(controller(), capture, transport);
    host.activate_once().unwrap();
    assert_eq!(host.state(), HandoffState::Local);
    assert!(matches!(
        host.forward(CapturedInput::Event(WireInputEvent {
            event_type: 1,
            code: 30,
            value: 1
        })),
        Err(SeamlessError::InputBeforeAcknowledgement)
    ));
    let (capture, _) = host.into_parts();
    assert!(!capture.began);
    assert_eq!(capture.released, 1);
}

#[test]
fn host_close_releases_local_before_best_effort_remote_release() {
    let capture = FakeCapture {
        activation: Some(Point { x: 0, y: 10 }),
        ..Default::default()
    };
    let transport = FakeTransport {
        received: VecDeque::from([Message::EnterAck]),
        ..Default::default()
    };
    let mut host = SeamlessHost::new(controller(), capture, transport);
    host.activate_once().unwrap();
    host.close().unwrap();
    let (capture, transport) = host.into_parts();
    assert_eq!(capture.released, 1);
    assert_eq!(transport.sent.last(), Some(&Message::HandoffRelease));
}

#[test]
fn host_processes_authenticated_right_exit_and_restores_mapped_position() {
    let capture = FakeCapture {
        activation: Some(Point { x: 0, y: 10 }),
        ..Default::default()
    };
    let transport = FakeTransport {
        received: VecDeque::from([
            Message::EnterAck,
            Message::ExitRequest {
                edge: WireEdge::Right,
                x: -1,
                y: 500,
            },
        ]),
        ..Default::default()
    };
    let mut host = SeamlessHost::new(controller(), capture, transport);
    host.activate_once().unwrap();
    host.forward_next(Duration::ZERO).unwrap();
    assert_eq!(host.state(), HandoffState::Local);
    let (capture, transport) = host.into_parts();
    assert_eq!(capture.restores, vec![Some(Point { x: 1, y: 500 })]);
    assert_eq!(transport.sent.last(), Some(&Message::HandoffRelease));
}

#[test]
fn client_acknowledges_before_it_accepts_input_and_releases_on_close() {
    let injector = FakeInject::default();
    let transport = FakeTransport::default();
    let mut client = SeamlessClient::new(injector, transport);
    client.handle(Message::Enter { x: -1, y: 500 }).unwrap();
    assert!(client.remote_active());
    client
        .handle(Message::Input(WireInputEvent {
            event_type: 1,
            code: 30,
            value: 1,
        }))
        .unwrap();
    client
        .handle(Message::PointerMotion { dx: 7, dy: -4 })
        .unwrap();
    client
        .handle(Message::Touch(WireTouchEvent {
            phase: TouchPhase::Down,
            id: 17,
            x: 12_000,
            y: 34_000,
        }))
        .unwrap();
    client.handle(Message::HandoffRelease).unwrap();
    let (injector, transport) = client.into_parts();
    assert_eq!(injector.prepared, vec![Point { x: -1, y: 500 }]);
    assert_eq!(injector.motions, vec![(7, -4)]);
    assert_eq!(injector.inputs.len(), 1);
    assert_eq!(injector.touches.len(), 1);
    assert_eq!(injector.releases, 1);
    assert_eq!(transport.sent, vec![Message::EnterAck]);
}

#[test]
fn client_releases_if_input_arrives_without_enter() {
    let mut client = SeamlessClient::new(FakeInject::default(), FakeTransport::default());
    assert!(matches!(
        client.handle(Message::Input(WireInputEvent {
            event_type: 1,
            code: 30,
            value: 1
        })),
        Err(SeamlessError::InputBeforeEntry)
    ));
    let (injector, _) = client.into_parts();
    assert_eq!(injector.releases, 1);
}

#[test]
fn client_only_requests_exit_after_active_entry() {
    let mut client = SeamlessClient::new(FakeInject::default(), FakeTransport::default());
    assert!(matches!(
        client.request_exit(WireEdge::Right, Point { x: -1, y: 500 }),
        Err(SeamlessError::InputBeforeEntry)
    ));
    client.handle(Message::Enter { x: -1, y: 500 }).unwrap();
    client
        .request_exit(WireEdge::Right, Point { x: -1, y: 500 })
        .unwrap();
    assert!(!client.remote_active());
    let (injector, transport) = client.into_parts();
    assert_eq!(injector.releases, 1);
    assert_eq!(
        transport.sent,
        vec![
            Message::EnterAck,
            Message::ExitRequest {
                edge: WireEdge::Right,
                x: -1,
                y: 500,
            },
        ]
    );
}

#[test]
fn client_discards_an_in_flight_motion_after_requesting_return() {
    let mut client = SeamlessClient::new(FakeInject::default(), FakeTransport::default());
    client.handle(Message::Enter { x: -1, y: 500 }).unwrap();
    client
        .request_exit(WireEdge::Right, Point { x: -1, y: 500 })
        .unwrap();
    client
        .handle(Message::Input(WireInputEvent {
            event_type: 2,
            code: 0,
            value: 4,
        }))
        .unwrap();
    client.handle(Message::HandoffRelease).unwrap();
    client.handle(Message::Enter { x: -1, y: 600 }).unwrap();
    let (injector, transport) = client.into_parts();
    assert!(injector.inputs.is_empty());
    assert_eq!(injector.releases, 2);
    assert_eq!(
        transport.sent,
        vec![
            Message::EnterAck,
            Message::ExitRequest {
                edge: WireEdge::Right,
                x: -1,
                y: 500,
            },
            Message::EnterAck,
        ]
    );
}

fn wire(event_type: u16, code: u16, value: i32) -> WireInputEvent {
    WireInputEvent { event_type, code, value }
}

/// Whole zoom steps between two distances that start out together.
fn zoom_steps(contacts: &PinchContacts, before: f64) -> i32 {
    let ((ax, ay), (bx, by)) = contacts.pair().unwrap();
    let dx = f64::from(i32::from(ax) - i32::from(bx));
    let dy = f64::from(i32::from(ay) - i32::from(by));
    ((dx.hypot(dy) - before) / 1_200.0).trunc() as i32
}

#[test]
fn two_finger_pinch_emits_ctrl_scroll_and_releases_control() {
    let mut pinch = PinchZoomTracker::new();
    let mut contacts = PinchContacts::new();
    assert!(pinch.down(1, 10_000, 10_000).is_empty());
    contacts.down(1, 10_000, 10_000);
    assert!(pinch.down(2, 12_000, 10_000).is_empty());
    contacts.down(2, 12_000, 10_000);
    assert!(contacts.motion(2, 15_000, 10_000));
    let steps = zoom_steps(&contacts, 2_000.0);
    assert_eq!(
        pinch.motion(2, 15_000, 10_000, steps),
        vec![wire(1, 29, 1), wire(2, 8, 240)]
    );
    assert_eq!(pinch.up(2), vec![wire(1, 29, 0)]);
}

#[test]
fn relative_motion_is_split_by_axis() {
    assert_eq!(relative_wire_events(3, -2), vec![wire(2, 0, 3), wire(2, 1, -2)]);
    assert_eq!(relative_wire_events(0, -2), vec![wire(2, 1, -2)]);
    assert_eq!(relative_wire_events(0, 0), vec![]);
}

#[test]
fn scroll_wire_preserves_smooth_and_discrete_units() {
    assert_eq!(
        captured_to_wire(CapturedEvent::ScrollDelta {
            horizontal: Rounded::Whole(2),
            vertical: Rounded::Whole(-7),
            moved_horizontal: true,
            moved_vertical: true,
        })
        .unwrap(),
        vec![wire(2, 12, 2), wire(2, 11, -7)]
    );
    assert_eq!(
        captured_to_wire(CapturedEvent::ScrollDiscrete {
            horizontal: 120,
            vertical: -120,
        })
        .unwrap(),
        vec![wire(2, 6, 120), wire(2, 8, -120)]
    );
}

#[test]
fn keys_and_buttons_cross_the_wire_and_come_out_again() {
    let injector = RemoteDesktopInjector::start().0;
    for (event, plan) in [
        (
            CapturedEvent::Key { evdev: 30, pressed: true },
            InjectPlan::Key { code: 30, state: InputState::Pressed },
        ),
        (
            CapturedEvent::Button { evdev: 0x110, pressed: false },
            InjectPlan::Button { code: 0x110, state: InputState::Released },
        ),
        (
            CapturedEvent::ScrollDiscrete { horizontal: 0, vertical: 120 },
            InjectPlan::ScrollDiscrete { horizontal: 0, vertical: 120 },
        ),
        (
            CapturedEvent::ScrollDelta {
                horizontal: Rounded::Whole(5),
                vertical: Rounded::Whole(0),
                moved_horizontal: true,
                moved_vertical: false,
            },
            InjectPlan::Scroll { horizontal: 5, vertical: 0 },
        ),
    ] {
        let wired = captured_to_wire(event).unwrap();
        assert_eq!(wired.len(), 1);
        assert_eq!(injector.inject(wired[0]), Ok(plan));
    }
    assert_eq!(injector.inject(wire(2, 0, 7)), Ok(InjectPlan::Relative { dx: 7, dy: 0 }));
    assert_eq!(injector.inject(wire(2, 1, 7)), Ok(InjectPlan::Relative { dx: 0, dy: 7 }));
    assert_eq!(injector.inject(wire(0, 0, 0)), Ok(InjectPlan::Nothing));
    assert!(injector.inject(wire(1, 30, 9)).is_err());
    assert!(injector.inject(wire(4, 4, 4)).is_err());
    let refused = captured_to_wire(CapturedEvent::RelativePointer {
        dx: Rounded::Whole(1),
        dy: Rounded::Beyond("3000000000".to_owned()),
    })
    .unwrap_err();
    assert_eq!(refused.kind, BackendErrorKind::InvalidData);
    assert_eq!(refused.message, "portal coordinate 3000000000 cannot be represented as i32");
}

#[test]
fn touches_are_planned_by_phase() {
    let injector = RemoteDesktopInjector::start().0;
    let touch = |phase| WireTouchEvent { phase, id: 3, x: 1, y: 2 };
    assert_eq!(
        injector.inject_touch(touch(TouchPhase::Down)),
        TouchPlan::Down { id: 3, x: 1, y: 2 }
    );
    assert_eq!(
        injector.inject_touch(touch(TouchPhase::Motion)),
        TouchPlan::Motion { id: 3, x: 1, y: 2 }
    );
    assert_eq!(
        injector.inject_touch(touch(TouchPhase::Up)),
        TouchPlan::Up { id: 3, cancelled: false }
    );
    assert_eq!(
        injector.inject_touch(touch(TouchPhase::Cancel)),
        TouchPlan::Up { id: 3, cancelled: true }
    );
}

#[test]
fn captured_motion_is_coalesced_and_stays_in_order() {
    let mut adapter = InputCaptureAdapter::start_left(0).0;
    adapter
        .drain_batch(&vec![
            CapturedEvent::RelativePointer { dx: Rounded::Whole(2), dy: Rounded::Whole(1) },
            CapturedEvent::AbsolutePointer(AbsoluteUpdate::Origin),
            CapturedEvent::AbsolutePointer(AbsoluteUpdate::Moved { dx: 1, dy: 1 }),
            CapturedEvent::Key { evdev: 30, pressed: true },
            CapturedEvent::RelativePointer { dx: Rounded::Whole(4), dy: Rounded::Whole(0) },
        ])
        .unwrap();
    assert_eq!(adapter.take_pending(), Some(CapturedInput::Motion { dx: 3, dy: 2 }));
    assert_eq!(adapter.take_pending(), Some(CapturedInput::Event(wire(1, 30, 1))));
    assert_eq!(adapter.take_pending(), Some(CapturedInput::Motion { dx: 4, dy: 0 }));
    assert_eq!(adapter.take_pending(), None);
    assert!(adapter
        .drain_batch(&vec![CapturedEvent::AbsolutePointer(AbsoluteUpdate::Invalid)])
        .is_err());
}

#[test]
fn an_activation_is_taken_once_and_released_once() {
    let mut adapter = InputCaptureAdapter::start(CaptureEdge::Left, -5).0;
    assert!(adapter.begin_remote_input().is_err());
    assert_eq!(adapter.waiting_signal(None), Ok(None));
    let activated = CaptureSignal::Activated {
        activation_id: 7,
        barrier_id: Some(1),
        cursor_position: CursorPosition::At { y: 540 },
    };
    assert_eq!(adapter.waiting_signal(Some(activated)), Ok(Some(Point { x: -5, y: 540 })));
    assert_eq!(adapter.begin_remote_input(), Ok(()));
    assert_eq!(adapter.active_signal(None), Ok(()));
    assert!(adapter.active_signal(Some(CaptureSignal::Disabled)).is_err());
    assert_eq!(adapter.return_to_local(), Ok(7));
    adapter.released(7);
    assert_eq!(adapter.release_local_input(), None);
}

#[test]
fn the_edge_watcher_reports_where_the_pointer_left() {
    let (watcher, _setup) = EdgeReturnWatcher::start(WireEdge::Right, 200);
    assert_eq!(capture_edge(WireEdge::Right), CaptureEdge::Right);
    assert_eq!(capture_edge(WireEdge::Left), CaptureEdge::Left);
    assert_eq!(watcher.poll_exit(None), Ok(ExitStep::Nothing));
    assert_eq!(
        watcher.poll_exit(Some(CaptureSignal::Activated {
            activation_id: 9,
            barrier_id: Some(1),
            cursor_position: CursorPosition::At { y: 40 },
        })),
        Ok(ExitStep::Release { activation_id: 9, outcome: Ok((WireEdge::Right, 240)) })
    );
}

#[test]
fn raw_contacts_appear_once_both_coordinates_are_known() {
    let mut capture = RawTrackpadPinchCapture::new((0, 100), (-50, 50)).unwrap();
    assert_eq!(capture.process(ABS_MT_SLOT, 1), None);
    assert_eq!(capture.process(ABS_MT_TRACKING_ID, 9), None);
    assert_eq!(capture.process(ABS_MT_POSITION_X, 50), None);
    assert_eq!(
        capture.process(ABS_MT_POSITION_Y, 50),
        Some(PinchInput::Down { id: 9, x: 32_767, y: 65_535 })
    );
    assert_eq!(
        capture.process(ABS_MT_POSITION_X, 200),
        Some(PinchInput::Motion { id: 9, x: 65_535, y: 65_535 })
    );
    assert_eq!(capture.process(ABS_MT_TRACKING_ID, -1), Some(PinchInput::Up { id: 9 }));
    assert_eq!(capture.process(ABS_MT_TRACKING_ID, -1), None);
    assert!(RawTrackpadPinchCapture::new((5, 5), (0, 1)).is_none());
    assert_eq!(normalize_trackpad_coordinate(-7, (0, 100)), 0);
    assert_eq!(normalize_trackpad_coordinate(1, (0, 100)), 655);
    capture.reset();
    assert_eq!(capture.process(ABS_MT_POSITION_X, 1), None);
}

#[test]
fn control_is_let_go_with_the_second_finger() {
    let mut pinch = PinchZoomTracker::new();
    pinch.down(1, 0, 0);
    assert!(pinch.motion(1, 5, 5, 3).is_empty());
    pinch.down(2, 9, 9);
    assert!(pinch.motion(3, 9, 9, 3).is_empty());
    assert_eq!(pinch.motion(2, 9, 9, -1), vec![wire(1, 29, 1), wire(2, 8, -120)]);
    assert_eq!(pinch.motion(2, 9, 9, 2), vec![wire(2, 8, 240)]);
    assert_eq!(pinch.up(1), vec![wire(1, 29, 0)]);
    assert_eq!(pinch.up(2), vec![]);
}

#[test]
fn a_refused_message_releases_what_was_injected() {
    let mut client = SeamlessClient::new(FakeInject::default(), FakeTransport::default());
    client.handle(Message::Enter { x: 1, y: 2 }).unwrap();
    assert_eq!(client.entry(), Some(Point { x: 1, y: 2 }));
    assert!(matches!(
        client.handle(Message::EnterAck),
        Err(SeamlessError::UnexpectedControl(Message::EnterAck))
    ));
    assert!(!client.remote_active());
    let (injector, _) = client.into_parts();
    assert_eq!(injector.releases, 1);
}

#[test]
fn an_entry_while_active_is_rejected() {
    let mut client = SeamlessClient::new(FakeInject::default(), FakeTransport::default());
    client.handle(Message::Enter { x: 1, y: 2 }).unwrap();
    let _ = client.handle(Message::Enter { x: 3, y: 4 });
    let (injector, transport) = client.into_parts();
    assert_eq!(injector.prepared, vec![Point { x: 1, y: 2 }]);
    assert_eq!(transport.sent, vec![Message::EnterAck, Message::EnterRejected]);
}

#[test]
fn a_quiet_channel_is_kept_alive_only_while_remote() {
    let mut idle_host =
        SeamlessHost::new(controller(), FakeCapture::default(), FakeTransport::default());
    idle_host.idle(60_000).unwrap();
    assert!(idle_host.into_parts().1.sent.is_empty());

    let capture = FakeCapture {
        activation: Some(Point { x: 0, y: 10 }),
        ..Default::default()
    };
    let transport = FakeTransport {
        received: VecDeque::from([Message::EnterAck]),
        ..Default::default()
    };
    let mut host = SeamlessHost::new(controller(), capture, transport);
    host.activate_once().unwrap();
    host.idle(999).unwrap();
    host.idle(1_000).unwrap();
    assert_eq!(
        host.into_parts().1.sent,
        vec![Message::Enter { x: -1, y: 10 }, Message::Heartbeat]
    );
}

#[test]
fn probes_are_numbered_and_answered_once() {
    let mut host =
        SeamlessHost::new(controller(), FakeCapture::default(), FakeTransport::default());
    host.latency_probe(999).unwrap();
    host.latency_probe(1_000).unwrap();
    host.latency_probe(5_000).unwrap();
    host.control(Message::DiagnosticPong { sequence: 1 }).unwrap();
    host.control(Message::DiagnosticPong { sequence: 1 }).unwrap();
    assert_eq!(host.take_round_trips().len(), 1);
    host.latency_probe(1_000).unwrap();
    // Another answer ends the wait too, but is not timed.
    host.control(Message::DiagnosticPong { sequence: 1 }).unwrap();
    host.latency_probe(1_000).unwrap();
    assert_eq!(host.take_round_trips().len(), 0);
    assert_eq!(
        host.into_parts().1.sent,
        vec![
            Message::DiagnosticPing { sequence: 1 },
            Message::DiagnosticPing { sequence: 2 },
            Message::DiagnosticPing { sequence: 3 },
        ]
    );
}

#[test]
fn a_client_answers_probes_and_refuses_answers() {
    let mut client = SeamlessClient::new(FakeInject::default(), FakeTransport::default());
    client.handle(Message::DiagnosticPing { sequence: 9 }).unwrap();
    assert_eq!(
        client.handle(Message::DiagnosticPong { sequence: 9 }),
        Err(SeamlessError::UnexpectedControl(Message::DiagnosticPong { sequence: 9 }))
    );
    let (injector, transport) = client.into_parts();
    assert_eq!(injector.releases, 1);
    assert_eq!(transport.sent, vec![Message::DiagnosticPong { sequence: 9 }]);
}

#[test]
fn an_entry_is_kept_exactly_while_input_is_let_in() {
    let mut client = SeamlessClient::new(FakeInject::default(), FakeTransport::default());
    assert_eq!(client.entry(), None);
    client.handle(Message::Enter { x: 1, y: 2 }).unwrap();
    client.handle(Message::Enter { x: 3, y: 4 }).unwrap();
    assert!(client.remote_active());
    assert_eq!(client.entry(), Some(Point { x: 1, y: 2 }));
    client.request_exit(WireEdge::Right, Point { x: 0, y: 0 }).unwrap();
    assert!(!client.remote_active());
    assert_eq!(client.entry(), None);
    client.handle(Message::Enter { x: 5, y: 6 }).unwrap();
    assert_eq!(client.entry(), Some(Point { x: 5, y: 6 }));
}

#[test]
fn a_captured_desktop_is_asked_for_touch_too() {
    let (_, mut setup) = InputCaptureAdapter::start_left(0);
    setup.session_type(Some("wayland".to_owned())).unwrap();
    assert!(setup.properties(2, 3).is_err());
    let (_, mut setup) = InputCaptureAdapter::start(CaptureEdge::Right, 0);
    setup.session_type(Some("wayland".to_owned())).unwrap();
    setup.properties(2, 7).unwrap();
}

#[test]
fn an_impossible_activation_is_refused() {
    let capture = FakeCapture {
        activation: Some(Point { x: 5, y: 10 }),
        ..Default::default()
    };
    let mut host = SeamlessHost::new(controller(), capture, FakeTransport::default());
    assert!(matches!(host.activate_once(), Err(SeamlessError::InvalidActivation)));
}

#[test]
fn a_client_hands_on_what_its_transport_receives() {
    let transport = FakeTransport {
        received: VecDeque::from([Message::EnterAck, Message::Goodbye]),
        ..Default::default()
    };
    let mut client = SeamlessClient::new(FakeInject::default(), transport);
    assert_eq!(client.receive_next().unwrap(), Message::EnterAck);
    assert_eq!(client.poll_next().unwrap(), Some(Message::Goodbye));
    assert_eq!(client.poll_next().unwrap(), None);
    assert!(client.receive_next().is_err());
    assert!(!client.remote_active());
}
