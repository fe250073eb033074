use cachybridge::handoff::{Edge, HandoffState, LayoutError};
use cachybridge::handoff_demo::{DemoError, LeftEdgeDemo};
use cachybridge::protocol::Message;

fn demo() -> LeftEdgeDemo {
    LeftEdgeDemo::side_by_side(1_920, 1_080, -1_440, 200, 1_440, 900).unwrap()
}

#[test]
fn left_barrier_maps_to_an_authenticated_enter_request() {
    let mut demo = demo();
    assert_eq!(
        demo.left_barrier_activated(0),
        Ok(Message::Enter { x: -1, y: 200 })
    );
    assert!(matches!(demo.state(), HandoffState::EntryPending { .. }));
}

#[test]
fn input_is_not_active_until_the_peer_acknowledges() {
    let mut demo = demo();
    demo.left_barrier_activated(540).unwrap();
    assert_eq!(demo.receive_peer_message(Message::EnterAck), Ok(true));
    assert_eq!(
        demo.state(),
        HandoffState::RemoteActive {
            exit_edge: Edge::Left
        }
    );
}

#[test]
fn rejected_or_malformed_control_does_not_activate_remote_input() {
    let mut demo = demo();
    demo.left_barrier_activated(540).unwrap();
    assert_eq!(demo.receive_peer_message(Message::EnterRejected), Ok(false));
    assert_eq!(demo.state(), HandoffState::Local);
    assert!(matches!(
        demo.receive_peer_message(Message::EnterAck),
        Err(DemoError::UnexpectedMessage { .. })
    ));
}

#[test]
fn release_is_sent_once_for_pending_or_active_handoffs() {
    let mut demo = demo();
    assert_eq!(demo.release(), None);
    demo.left_barrier_activated(540).unwrap();
    assert_eq!(demo.release(), Some(Message::HandoffRelease));
    assert_eq!(demo.release(), None);

    demo.left_barrier_activated(540).unwrap();
    demo.receive_peer_message(Message::EnterAck).unwrap();
    assert_eq!(demo.release(), Some(Message::HandoffRelease));
}

#[test]
fn invalid_barrier_coordinate_is_rejected_before_network_activity() {
    let mut demo = demo();
    assert_eq!(
        demo.left_barrier_activated(1_080),
        Err(DemoError::InvalidEdgeCoordinate(1_080))
    );
    assert_eq!(demo.state(), HandoffState::Local);
}

#[test]
fn an_impossible_layout_is_reported() {
    assert!(matches!(
        LeftEdgeDemo::side_by_side(0, 1_080, -1_440, 200, 1_440, 900),
        Err(DemoError::Layout(LayoutError::EmptyRectangle))
    ));
    assert!(matches!(
        LeftEdgeDemo::side_by_side(1_920, 1_080, i32::MAX, 200, 1_440, 900),
        Err(DemoError::Layout(LayoutError::CoordinateOverflow))
    ));
}

#[test]
fn only_a_pending_entry_can_begin_forwarding() {
    let mut demo = demo();
    for message in [Message::EnterAck, Message::EnterRejected, Message::Heartbeat] {
        assert_eq!(
            demo.receive_peer_message(message),
            Err(DemoError::UnexpectedMessage { state: HandoffState::Local, message })
        );
    }
    demo.left_barrier_activated(0).unwrap();
    assert!(demo.receive_peer_message(Message::Heartbeat).is_err());
    assert_eq!(demo.receive_peer_message(Message::EnterAck), Ok(true));
    assert!(demo.receive_peer_message(Message::EnterAck).is_err());
}
