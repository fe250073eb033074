use cachybridge::handoff::{
    map_coordinate, Edge, HandoffAction, HandoffController, HandoffState, LayoutError, Point, Rect,
    Transition,
};

fn rect(x: i32, y: i32, width: u32, height: u32) -> Rect {
    Rect::new(x, y, width, height).unwrap()
}

fn controller(edge: Edge) -> HandoffController {
    HandoffController::new(
        rect(0, 0, 1_920, 1_080),
        rect(-1_440, 200, 1_440, 900),
        edge,
    )
}

#[test]
fn rejects_empty_and_overflowing_rectangles() {
    assert_eq!(Rect::new(0, 0, 0, 1), Err(LayoutError::EmptyRectangle));
    assert_eq!(
        Rect::new(i32::MAX, 0, 2, 1),
        Err(LayoutError::CoordinateOverflow)
    );
}

#[test]
fn left_edge_requests_entry_at_peers_right_edge_with_scaled_y() {
    let mut handoff = controller(Edge::Left);
    let transition = handoff.local_edge_activated(Point { x: 0, y: 0 });
    assert_eq!(
        transition,
        Transition::changed(
            HandoffState::EntryPending {
                exit_edge: Edge::Left,
                entry: Point { x: -1, y: 200 },
                local_entry: Point { x: 0, y: 0 },
            },
            HandoffAction::RequestPeerEntry {
                entry: Point { x: -1, y: 200 },
            },
        )
    );

    let mut handoff = controller(Edge::Left);
    let transition = handoff.local_edge_activated(Point { x: 0, y: 1_079 });
    assert_eq!(
        transition.action,
        Some(HandoffAction::RequestPeerEntry {
            entry: Point { x: -1, y: 1_099 },
        })
    );
}

#[test]
fn right_edge_maps_to_peers_left_edge() {
    let mut handoff = controller(Edge::Right);
    let transition = handoff.local_edge_activated(Point { x: 1_919, y: 540 });
    assert_eq!(
        transition.action,
        Some(HandoffAction::RequestPeerEntry {
            entry: Point { x: -1_440, y: 650 },
        })
    );
}

#[test]
fn ordinary_motion_and_wrong_edge_do_not_start_transfer() {
    let mut handoff = controller(Edge::Left);
    assert_eq!(
        handoff.local_edge_activated(Point { x: 1, y: 400 }),
        Transition::unchanged(HandoffState::Local)
    );
    assert_eq!(
        handoff.local_edge_activated(Point { x: 0, y: 1_080 }),
        Transition::unchanged(HandoffState::Local)
    );
}

#[test]
fn remote_input_starts_only_after_acknowledgement() {
    let mut handoff = controller(Edge::Left);
    handoff.local_edge_activated(Point { x: 0, y: 400 });
    assert_eq!(
        handoff.state(),
        HandoffState::EntryPending {
            exit_edge: Edge::Left,
            entry: Point { x: -1, y: 533 },
            local_entry: Point { x: 0, y: 400 },
        }
    );
    assert_eq!(
        handoff.peer_entry_acknowledged(),
        Transition::changed(
            HandoffState::RemoteActive {
                exit_edge: Edge::Left
            },
            HandoffAction::BeginRemoteInput,
        )
    );
    assert_eq!(
        handoff.peer_entry_acknowledged(),
        Transition::unchanged(HandoffState::RemoteActive {
            exit_edge: Edge::Left
        })
    );
}

#[test]
fn rejected_entry_warps_local_pointer_without_forwarding() {
    let mut handoff = controller(Edge::Left);
    handoff.local_edge_activated(Point { x: 0, y: 400 });
    assert_eq!(
        handoff.peer_entry_rejected(),
        Transition::changed(
            HandoffState::Local,
            HandoffAction::WarpLocalPointer {
                at: Point { x: 1, y: 400 }
            },
        )
    );
}

#[test]
fn remote_exit_requires_opposite_edge_then_releases_input() {
    let mut handoff = controller(Edge::Left);
    handoff.local_edge_activated(Point { x: 0, y: 539 });
    handoff.peer_entry_acknowledged();
    assert_eq!(
        handoff.peer_exit_activated(Edge::Left, Point { x: -1_440, y: 600 }),
        Transition::unchanged(HandoffState::RemoteActive {
            exit_edge: Edge::Left
        })
    );
    assert_eq!(
        handoff.peer_exit_activated(Edge::Right, Point { x: -1, y: 600 }),
        Transition::changed(
            HandoffState::Local,
            HandoffAction::ReturnToLocal {
                at: Point { x: 1, y: 480 },
            },
        )
    );
    assert_eq!(handoff.state(), HandoffState::Local);
}

#[test]
fn disconnect_releases_pending_or_active_input_idempotently() {
    let mut handoff = controller(Edge::Left);
    handoff.local_edge_activated(Point { x: 0, y: 400 });
    assert_eq!(
        handoff.disconnect_or_cancel(),
        Transition::changed(HandoffState::Local, HandoffAction::ReleaseRemoteInput)
    );
    assert_eq!(
        handoff.disconnect_or_cancel(),
        Transition::unchanged(HandoffState::Local)
    );

    handoff.local_edge_activated(Point { x: 0, y: 400 });
    handoff.peer_entry_acknowledged();
    assert_eq!(
        handoff.disconnect_or_cancel(),
        Transition::changed(HandoffState::Local, HandoffAction::ReleaseRemoteInput)
    );
}

#[test]
fn mapping_rounds_to_the_nearest_coordinate_and_clamps() {
    assert_eq!(map_coordinate(540, 0, 1_080, 200, 900), 650);
    assert_eq!(map_coordinate(400, 0, 1_080, 200, 900), 533);
    assert_eq!(map_coordinate(-5, 0, 1_080, 200, 900), 200);
    assert_eq!(map_coordinate(5_000, 0, 1_080, 200, 900), 1_099);
    assert_eq!(map_coordinate(7, 0, 1, 200, 900), 200);
    assert_eq!(map_coordinate(i32::MAX, i32::MIN, 1, 200, u32::MAX), 200);
    assert_eq!(map_coordinate(7, 0, 1_080, 200, 1), 200);
    // A half rounds up: one of two steps onto a span of one.
    assert_eq!(map_coordinate(1, 0, 3, 10, 2), 11);
}

#[test]
fn mapping_is_monotone_and_stays_inside() {
    let mut last = -1_440;
    for value in 0..1_080 {
        let mapped = map_coordinate(value, 0, 1_080, -1_440, 300);
        assert!(mapped >= last && mapped < -1_440 + 300);
        last = mapped;
    }
    assert_eq!(last, -1_141);
}

#[test]
fn rectangles_know_their_points_and_edges() {
    let peer = rect(-1_440, 200, 1_440, 900);
    assert!(peer.contains(Point { x: -1, y: 1_099 }));
    assert!(!peer.contains(Point { x: 0, y: 1_099 }));
    assert!(!peer.contains(Point { x: -1, y: 1_100 }));
    assert_eq!(peer.edge_x(Edge::Left), -1_440);
    assert_eq!(peer.edge_x(Edge::Right), -1);
    assert_eq!(Edge::Left.opposite(), Edge::Right);
    assert_eq!(Edge::Right.opposite(), Edge::Left);
}

#[test]
fn entries_lie_on_the_facing_edge_and_returns_avoid_the_barrier() {
    for y in [0, 1, 539, 1_079] {
        let mut handoff = controller(Edge::Right);
        let requested = handoff.local_edge_activated(Point { x: 1_919, y });
        match requested.action {
            Some(HandoffAction::RequestPeerEntry { entry }) => assert_eq!(entry.x, -1_440),
            other => panic!("unexpected action {other:?}"),
        }
        handoff.peer_entry_acknowledged();
        let back = handoff.peer_exit_activated(Edge::Left, Point { x: -1_440, y: 200 });
        match back.action {
            Some(HandoffAction::ReturnToLocal { at }) => assert_eq!(at, Point { x: 1_918, y: 0 }),
            other => panic!("unexpected action {other:?}"),
        }
    }
}

#[test]
fn repeated_observations_change_nothing() {
    let mut handoff = controller(Edge::Left);
    let first = handoff.local_edge_activated(Point { x: 0, y: 10 });
    assert_eq!(
        handoff.local_edge_activated(Point { x: 0, y: 900 }),
        Transition::unchanged(first.state)
    );
    handoff.peer_entry_acknowledged();
    let active = handoff.state();
    assert_eq!(handoff.peer_entry_rejected(), Transition::unchanged(active));
    assert_eq!(
        handoff.peer_exit_activated(Edge::Right, Point { x: -2, y: 600 }),
        Transition::unchanged(active)
    );
}
