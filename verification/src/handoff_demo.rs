//! Encrypted left-edge handoff demonstration glue.
//!
//! It accepts a simulated pointer-barrier observation, performs the
//! authenticated `Enter`/`EnterAck` exchange, and translates it through the
//! pure [`crate::handoff`] state machine.
use vstd::prelude::*;

use crate::handoff::{
    Edge, HandoffAction, HandoffController, HandoffState, HandoffView, LayoutError, Point, Rect,
    Transition,
};
use crate::protocol::Message;

verus! {

/// A testable adapter for a display with a peer positioned at its left edge.
#[derive(Debug, Clone)]
pub struct LeftEdgeDemo {
    controller: HandoffController,
}

#[derive(Debug, Clone, Copy, PartialEq, Eq, Structural)]
pub enum DemoError {
    Layout(LayoutError),
    InvalidEdgeCoordinate(i32),
    UnexpectedMessage { state: HandoffState, message: Message },
    UnexpectedAction { state: HandoffState, action: HandoffAction },
}

impl View for LeftEdgeDemo {
    type V = HandoffView;

    closed spec fn view(&self) -> HandoffView {
        self.controller@
    }
}

/// Outcome of a left-barrier activation at height `y`.
pub open spec fn barrier_outcome(view: HandoffView, y: i32) -> Result<Message, DemoError> {
    match view.on_local_edge(Point { x: 0, y }).action {
        Some(HandoffAction::RequestPeerEntry { entry }) => Ok(
            Message::Enter { x: entry.x, y: entry.y },
        ),
        _ => Err(DemoError::InvalidEdgeCoordinate(y)),
    }
}

/// The transition that a peer message causes.
pub open spec fn peer_transition(view: HandoffView, message: Message) -> Transition {
    match message {
        Message::EnterAck => view.on_ack(),
        Message::EnterRejected => view.on_reject(),
        Message::HandoffRelease => view.on_cancel(),
        _ => Transition { state: view.state, action: None },
    }
}

/// Outcome of a peer message: whether forwarding may begin, or that the
/// message does not belong in the present state.
pub open spec fn peer_outcome(view: HandoffView, message: Message) -> Result<bool, DemoError> {
    match message {
        Message::HandoffRelease => Ok(false),
        Message::EnterAck if view.state is EntryPending => Ok(true),
        Message::EnterRejected if view.state is EntryPending => Ok(false),
        _ => Err(DemoError::UnexpectedMessage { state: view.state, message }),
    }
}

impl LeftEdgeDemo {
    pub fn new(local: Rect, peer: Rect) -> (demo: LeftEdgeDemo)
        ensures
            demo@ == (HandoffView {
                local,
                peer,
                peer_edge: Edge::Left,
                state: HandoffState::Local,
            }),
    {
        LeftEdgeDemo { controller: HandoffController::new(local, peer, Edge::Left) }
    }

    /// Creates the common side-by-side layout. The local display starts at
    /// `(0, 0)`; the peer occupies the left side and may have a different size
    /// or vertical offset.
    pub fn side_by_side(
        local_width: u32,
        local_height: u32,
        peer_x: i32,
        peer_y: i32,
        peer_width: u32,
        peer_height: u32,
    ) -> (result: Result<LeftEdgeDemo, DemoError>)
        ensures
            ({
                let local = Rect { x: 0, y: 0, width: local_width, height: local_height };
                let peer = Rect { x: peer_x, y: peer_y, width: peer_width, height: peer_height };
                match result {
                    Ok(demo) => local.valid() && peer.valid() && demo@.wf() && demo@ == (
                    HandoffView {
                        local,
                        peer,
                        peer_edge: Edge::Left,
                        state: HandoffState::Local,
                    }),
                    Err(error) => {
                        let bad = if local.valid() {
                            peer
                        } else {
                            local
                        };
                        !bad.valid() && error == DemoError::Layout(
                            if bad.width == 0 || bad.height == 0 {
                                LayoutError::EmptyRectangle
                            } else {
                                LayoutError::CoordinateOverflow
                            },
                        )
                    },
                }
            }),
    {
        let local = match Rect::new(0, 0, local_width, local_height) {
            Ok(local) => local,
            Err(error) => {
                return Err(DemoError::Layout(error));
            },
        };
        let peer = match Rect::new(peer_x, peer_y, peer_width, peer_height) {
            Ok(peer) => peer,
            Err(error) => {
                return Err(DemoError::Layout(error));
            },
        };
        Ok(LeftEdgeDemo::new(local, peer))
    }

    pub fn state(&self) -> (state: HandoffState)
        ensures
            state == self@.state,
    {
        self.controller.state()
    }

    /// Translates a left pointer-barrier activation into the encrypted message
    /// to send to the peer. No input is remotely active at this point.
    pub fn left_barrier_activated(&mut self, y: i32) -> (result: Result<Message, DemoError>)
        requires
            old(self)@.wf(),
        ensures
            result == barrier_outcome(old(self)@, y),
            final(self)@ == old(self)@.with_state(
                old(self)@.on_local_edge(Point { x: 0, y }).state,
            ),
            final(self)@.wf(),
    {
        let transition = self.controller.local_edge_activated(Point { x: 0, y });
        match transition.action {
            Some(HandoffAction::RequestPeerEntry { entry }) => Ok(
                Message::Enter { x: entry.x, y: entry.y },
            ),
            None => Err(DemoError::InvalidEdgeCoordinate(y)),
            Some(action) => Err(
                DemoError::UnexpectedAction { state: transition.state, action },
            ),
        }
    }

    /// Feeds an authenticated control message from the peer into the state
    /// machine. `Ok(true)` means input forwarding may begin; `Ok(false)` means
    /// the peer declined entry and the local pointer was recovered.
    pub fn receive_peer_message(&mut self, message: Message) -> (result: Result<bool, DemoError>)
        requires
            old(self)@.wf(),
        ensures
            result == peer_outcome(old(self)@, message),
            final(self)@ == old(self)@.with_state(peer_transition(old(self)@, message).state),
            final(self)@.wf(),
    {
        match message {
            Message::EnterAck => match self.controller.peer_entry_acknowledged().action {
                Some(HandoffAction::BeginRemoteInput) => Ok(true),
                _ => Err(self.unexpected(Message::EnterAck)),
            },
            Message::EnterRejected => match self.controller.peer_entry_rejected().action {
                Some(HandoffAction::WarpLocalPointer { .. }) => Ok(false),
                _ => Err(self.unexpected(Message::EnterRejected)),
            },
            Message::HandoffRelease => {
                self.controller.disconnect_or_cancel();
                Ok(false)
            },
            message => Err(self.unexpected(message)),
        }
    }

    /// Converts an orderly stop, disconnect, or emergency release into the
    /// dedicated handoff release frame. It is idempotent: callers send a frame
    /// only when a pending or active handoff actually existed.
    pub fn release(&mut self) -> (message: Option<Message>)
        ensures
            message == if old(self)@.state == HandoffState::Local {
                None::<Message>
            } else {
                Some(Message::HandoffRelease)
            },
            final(self)@ == old(self)@.with_state(HandoffState::Local),
            old(self)@.wf() ==> final(self)@.wf(),
    {
        match self.controller.disconnect_or_cancel().action {
            Some(HandoffAction::ReleaseRemoteInput) => Some(Message::HandoffRelease),
            _ => None,
        }
    }

    fn unexpected(&self, message: Message) -> (error: DemoError)
        ensures
            error == (DemoError::UnexpectedMessage { state: self@.state, message }),
    {
        DemoError::UnexpectedMessage { state: self.controller.state(), message }
    }
}

/// Forwarding is granted only by an acknowledgement of a pending entry, and
/// exactly then is the peer in control.
pub proof fn law_forwarding_needs_a_pending_entry(view: HandoffView, message: Message)
    ensures
        peer_outcome(view, message) == Ok::<bool, DemoError>(true) <==> message
            == Message::EnterAck && view.state is EntryPending,
        peer_outcome(view, message) == Ok::<bool, DemoError>(true) ==> peer_transition(
            view,
            message,
        ).state is RemoteActive,
        peer_outcome(view, message) is Err ==> peer_transition(view, message).state == view.state,
{
}

/// At every height of the local display the left barrier asks the peer for an
/// entry on its right-hand column, at the same relative height; elsewhere, or
/// while a handoff is under way, it names the height that does not fit.
pub proof fn law_the_left_barrier_asks_at_every_height(view: HandoffView, y: i32)
    requires
        view.local.x == 0,
        0 < view.local.width <= i32::MAX,
        0 < view.local.height <= i32::MAX,
        0 < view.peer.width <= i32::MAX,
        0 < view.peer.height <= i32::MAX,
        view.local.y + view.local.height - 1 <= i32::MAX,
        view.peer.x + view.peer.width - 1 <= i32::MAX,
        view.peer.y + view.peer.height - 1 <= i32::MAX,
        view.peer_edge == Edge::Left,
        view.state == HandoffState::Local,
    ensures
        if view.local.y <= y < view.local.y + view.local.height {
            barrier_outcome(view, y) matches Ok(Message::Enter { x, y: row }) && x == view.peer.x
                + view.peer.width - 1 && crate::handoff::at_same_height(
                y - view.local.y,
                view.local.height as int,
                row - view.peer.y,
                view.peer.height as int,
            )
        } else {
            barrier_outcome(view, y) == Err::<Message, DemoError>(
                DemoError::InvalidEdgeCoordinate(y),
            )
        },
{
    crate::handoff::law_every_crossing_asks_for_an_entry(view, Point { x: 0, y });
}

/// A refusal or a release ends the wait on the local side; a message that does
/// not belong there is named with the state it came in.
pub proof fn law_peers_decide_a_pending_entry(view: HandoffView, message: Message)
    requires
        view.state is EntryPending,
    ensures
        message == Message::EnterAck ==> peer_outcome(view, message) == Ok::<bool, DemoError>(true)
            && peer_transition(view, message).state is RemoteActive,
        message == Message::EnterRejected || message == Message::HandoffRelease ==> peer_outcome(
            view,
            message,
        ) == Ok::<bool, DemoError>(false) && peer_transition(view, message).state
            == HandoffState::Local,
        message != Message::EnterAck && message != Message::EnterRejected && message
            != Message::HandoffRelease ==> peer_outcome(view, message) == Err::<bool, DemoError>(
            DemoError::UnexpectedMessage { state: view.state, message },
        ) && peer_transition(view, message).state == view.state,
{
}

} // verus!
