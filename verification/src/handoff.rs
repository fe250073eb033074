//! Pure state machine for handing pointer and keyboard ownership across a
//! display edge.
//!
//! The input backend owns pointer barriers and the network backend owns the
//! enter/ack messages. This module owns neither: it turns those observations
//! into explicit actions.
use vstd::prelude::*;

verus! {

/// One horizontal edge of a logical display rectangle.
#[derive(Debug, Clone, Copy, PartialEq, Eq, Structural)]
pub enum Edge {
    Left,
    Right,
}

impl Edge {
    pub open spec fn flipped(self) -> Edge {
        match self {
            Edge::Left => Edge::Right,
            Edge::Right => Edge::Left,
        }
    }

    /// The edge used to leave a display after entering through `self`.
    pub fn opposite(self) -> (edge: Edge)
        ensures
            edge == self.flipped(),
    {
        match self {
            Edge::Left => Edge::Right,
            Edge::Right => Edge::Left,
        }
    }
}

/// A pixel coordinate in a logical desktop coordinate space.
#[derive(Debug, Clone, Copy, PartialEq, Eq, Structural)]
pub struct Point {
    pub x: i32,
    pub y: i32,
}

/// A non-empty logical display rectangle.
#[derive(Debug, Clone, Copy, PartialEq, Eq, Structural)]
pub struct Rect {
    pub x: i32,
    pub y: i32,
    pub width: u32,
    pub height: u32,
}

/// Invalid logical display geometry.
#[derive(Debug, Clone, Copy, PartialEq, Eq, Structural)]
pub enum LayoutError {
    EmptyRectangle,
    CoordinateOverflow,
}

/// Whether the last coordinate of a span of `len` pixels from `start` can be written down.
pub open spec fn has_last(start: i32, len: u32) -> bool {
    len <= i32::MAX && i32::MIN <= start + len - 1 <= i32::MAX
}

/// The last coordinate of a span of `len` pixels from `start`.
fn last_coordinate(start: i32, len: u32) -> (last: Option<i32>)
    ensures
        last == if has_last(start, len) {
            Some((start + len - 1) as i32)
        } else {
            None::<i32>
        },
{
    if len > 0x7fff_ffff {
        return None;
    }
    let sum: i64 = start as i64 + len as i64 - 1;
    if sum < -0x8000_0000 || sum > 0x7fff_ffff {
        return None;
    }
    Some(sum as i32)
}

impl Rect {
    /// A display with at least one pixel whose last column and row have coordinates.
    pub open spec fn valid(self) -> bool {
        &&& self.width > 0
        &&& self.height > 0
        &&& has_last(self.x, self.width)
        &&& has_last(self.y, self.height)
    }

    /// Column of the rightmost pixels.
    pub open spec fn right_edge(self) -> int {
        self.x + self.width - 1
    }

    /// Row of the lowest pixels.
    pub open spec fn bottom_edge(self) -> int {
        self.y + self.height - 1
    }

    /// Whether a point lies on one of the pixels.
    pub open spec fn holds(self, point: Point) -> bool {
        &&& has_last(self.x, self.width)
        &&& has_last(self.y, self.height)
        &&& self.x <= point.x <= self.right_edge()
        &&& self.y <= point.y <= self.bottom_edge()
    }

    /// Column of an edge.
    pub open spec fn column(self, edge: Edge) -> int {
        match edge {
            Edge::Left => self.x as int,
            Edge::Right => self.right_edge(),
        }
    }

    /// Creates a rectangle, rejecting empty displays and coordinates that
    /// would overflow when their inclusive right/bottom edge is calculated.
    pub fn new(x: i32, y: i32, width: u32, height: u32) -> (result: Result<Rect, LayoutError>)
        ensures
            match result {
                Ok(rect) => rect == (Rect { x, y, width, height }) && rect.valid(),
                Err(LayoutError::EmptyRectangle) => width == 0 || height == 0,
                Err(LayoutError::CoordinateOverflow) => width > 0 && height > 0 && !(has_last(
                    x,
                    width,
                ) && has_last(y, height)),
            },
    {
        if width == 0 || height == 0 {
            return Err(LayoutError::EmptyRectangle);
        }
        let rectangle = Rect { x, y, width, height };
        if rectangle.right().is_none() || rectangle.bottom().is_none() {
            return Err(LayoutError::CoordinateOverflow);
        }
        Ok(rectangle)
    }

    pub fn contains(self, point: Point) -> (inside: bool)
        ensures
            inside == self.holds(point),
    {
        match (self.right(), self.bottom()) {
            (Some(right), Some(bottom)) => self.x <= point.x && point.x <= right && self.y
                <= point.y && point.y <= bottom,
            _ => false,
        }
    }

    pub fn edge_x(self, edge: Edge) -> (x: i32)
        requires
            edge == Edge::Right ==> has_last(self.x, self.width),
        ensures
            x == self.column(edge),
    {
        match edge {
            Edge::Left => self.x,
            Edge::Right => self.right().unwrap(),
        }
    }

    fn right(self) -> (right: Option<i32>)
        ensures
            right == if has_last(self.x, self.width) {
                Some(self.right_edge() as i32)
            } else {
                None::<i32>
            },
    {
        last_coordinate(self.x, self.width)
    }

    fn bottom(self) -> (bottom: Option<i32>)
        ensures
            bottom == if has_last(self.y, self.height) {
                Some(self.bottom_edge() as i32)
            } else {
                None::<i32>
            },
    {
        last_coordinate(self.y, self.height)
    }
}

/// The current ownership of keyboard/mouse input.
#[derive(Debug, Clone, Copy, PartialEq, Eq, Structural)]
pub enum HandoffState {
    /// The local compositor owns input.
    Local,
    /// An authenticated peer has been asked to accept a handoff. Input stays
    /// local until the peer acknowledges it.
    EntryPending { exit_edge: Edge, entry: Point, local_entry: Point },
    /// Input belongs to the peer until its opposite edge is crossed, the peer
    /// disconnects, or the user cancels the handoff.
    RemoteActive { exit_edge: Edge },
}

/// An instruction for the compositor/network adapter.
#[derive(Debug, Clone, Copy, PartialEq, Eq, Structural)]
pub enum HandoffAction {
    /// Ask the peer to place its pointer at `entry`, then wait for an ACK.
    RequestPeerEntry { entry: Point },
    /// The peer has acknowledged the entry; forwarding may now begin.
    BeginRemoteInput,
    /// Stop forwarding and release all keys/buttons on the peer. This must be
    /// best-effort even when the transport is already disconnected.
    ReleaseRemoteInput,
    /// Move the local compositor pointer back onto this display.
    WarpLocalPointer { at: Point },
    /// Stop remote input, release all remote controls, then warp the local
    /// pointer back to `at`. The adapter must preserve that order.
    ReturnToLocal { at: Point },
}

/// Result of feeding one external observation to [`HandoffController`].
#[derive(Debug, Clone, Copy, PartialEq, Eq, Structural)]
pub struct Transition {
    pub state: HandoffState,
    pub action: Option<HandoffAction>,
}

impl Transition {
    pub fn unchanged(state: HandoffState) -> (transition: Transition)
        ensures
            transition == (Transition { state, action: None }),
    {
        Transition { state, action: None }
    }

    pub fn changed(state: HandoffState, action: HandoffAction) -> (transition: Transition)
        ensures
            transition == (Transition { state, action: Some(action) }),
    {
        Transition { state, action: Some(action) }
    }
}

/// Where a coordinate of one span falls on another: the offset is clamped to
/// the source span, scaled proportionally and rounded to the nearest pixel.
pub open spec fn mapped(
    value: int,
    source_start: int,
    source_len: int,
    destination_start: int,
    destination_len: int,
) -> int {
    let span = source_len - 1;
    let offset = if value < source_start {
        0
    } else if value - source_start > span {
        span
    } else {
        value - source_start
    };
    if source_len == 1 || destination_len == 1 {
        destination_start
    } else {
        destination_start + (offset * (destination_len - 1) + span / 2) / span
    }
}

/// Rounded scaling of an offset stays within the destination span.
proof fn lemma_scaled(offset: int, span: int, destination: int)
    requires
        0 <= offset <= span,
        0 < span,
        0 <= destination,
    ensures
        0 <= (offset * destination + span / 2) / span <= destination,
        0 <= offset * destination <= span * destination,
{
    assert(0 <= offset * destination <= span * destination) by (nonlinear_arith)
        requires
            0 <= offset <= span,
            0 <= destination,
    ;
    let total = offset * destination + span / 2;
    vstd::arithmetic::div_mod::lemma_div_pos_is_pos(total, span);
    assert(total < span * destination + span);
    assert(span * destination + span == (destination + 1) * span) by (nonlinear_arith);
    vstd::arithmetic::div_mod::lemma_multiply_divide_lt(total, span, destination + 1);
}

/// Mapping keeps the order of coordinates, keeps first and last pixels in
/// place and never leaves the destination.
pub proof fn law_mapping_is_monotone_and_bounded(
    a: int,
    b: int,
    source_start: int,
    source_len: int,
    destination_start: int,
    destination_len: int,
)
    requires
        source_len >= 1,
        destination_len >= 1,
        a <= b,
    ensures
        mapped(a, source_start, source_len, destination_start, destination_len) <= mapped(
            b,
            source_start,
            source_len,
            destination_start,
            destination_len,
        ),
        destination_start <= mapped(a, source_start, source_len, destination_start, destination_len)
            <= destination_start + destination_len - 1,
        mapped(source_start, source_start, source_len, destination_start, destination_len)
            == destination_start,
        source_len > 1 ==> mapped(
            source_start + source_len - 1,
            source_start,
            source_len,
            destination_start,
            destination_len,
        ) == destination_start + destination_len - 1,
{
    if source_len > 1 && destination_len > 1 {
        let span = source_len - 1;
        let d = destination_len - 1;
        let clamp = |v: int|
            if v < source_start {
                0
            } else if v - source_start > span {
                span
            } else {
                v - source_start
            };
        let oa = clamp(a);
        let ob = clamp(b);
        lemma_scaled(oa, span, d);
        assert(oa * d <= ob * d) by (nonlinear_arith)
            requires
                oa <= ob,
                d >= 0,
        ;
        vstd::arithmetic::div_mod::lemma_div_is_ordered(
            oa * d + span / 2,
            ob * d + span / 2,
            span,
        );
        assert(0 * d == 0);
        vstd::arithmetic::div_mod::lemma_basic_div(span / 2, span);
        vstd::arithmetic::div_mod::lemma_fundamental_div_mod_converse(
            span * d + span / 2,
            span,
            d,
            span / 2,
        );
    }
}

/// Maps a coordinate of one span proportionally onto another.
pub fn map_coordinate(
    value: i32,
    source_start: i32,
    source_len: u32,
    destination_start: i32,
    destination_len: u32,
) -> (result: i32)
    requires
        source_len > 0,
        destination_len > 0,
        source_len > 1 && destination_len > 1 ==> i32::MIN <= value - source_start <= i32::MAX
            && mapped(
            value as int,
            source_start as int,
            source_len as int,
            destination_start as int,
            destination_len as int,
        ) <= i32::MAX,
    ensures
        result == mapped(
            value as int,
            source_start as int,
            source_len as int,
            destination_start as int,
            destination_len as int,
        ),
        destination_start <= result <= destination_start + destination_len - 1,
{
    if source_len == 1 || destination_len == 1 {
        return destination_start;
    }
    let source_span: i64 = source_len as i64 - 1;
    let destination_span: i64 = destination_len as i64 - 1;
    let raw: i64 = value as i64 - source_start as i64;
    let offset: i64 = if raw < 0 {
        0
    } else if raw > source_span {
        source_span
    } else {
        raw
    };
    proof {
        lemma_scaled(offset as int, source_span as int, destination_span as int);
        assert(offset * destination_span <= 0x7fff_ffff * 0xffff_fffe) by (nonlinear_arith)
            requires
                0 <= offset <= 0x7fff_ffff,
                0 <= destination_span <= 0xffff_fffe,
        ;
    }
    let mapped_offset: i64 = (offset * destination_span + source_span / 2) / source_span;
    (destination_start as i64 + mapped_offset) as i32
}

/// What a [`HandoffController`] knows.
pub struct HandoffView {
    pub local: Rect,
    pub peer: Rect,
    pub peer_edge: Edge,
    pub state: HandoffState,
}

impl HandoffView {
    /// Both displays have coordinates for all their pixels, and a transfer in
    /// progress left through the configured edge.
    pub open spec fn wf(self) -> bool {
        &&& self.local.valid()
        &&& self.peer.valid()
        &&& match self.state {
            HandoffState::Local => true,
            HandoffState::EntryPending { exit_edge, entry, local_entry } => exit_edge
                == self.peer_edge && self.peer.holds(entry) && entry.x == self.peer.column(
                exit_edge.flipped(),
            ) && self.local.holds(local_entry) && local_entry.x == self.local.column(exit_edge),
            HandoffState::RemoteActive { exit_edge } => exit_edge == self.peer_edge,
        }
    }

    pub open spec fn with_state(self, state: HandoffState) -> HandoffView {
        HandoffView { state, ..self }
    }

    /// The pixel the pointer is restored to after leaving through a boundary
    /// point: one column inside the display, so the barrier is not hit again
    /// at once. A one-pixel-wide display keeps its only column.
    pub open spec fn interior(self, boundary: Point) -> Point {
        if self.local.width > 1 {
            Point {
                x: match self.peer_edge {
                    Edge::Left => (self.local.x + 1) as i32,
                    Edge::Right => (self.local.right_edge() - 1) as i32,
                },
                y: boundary.y,
            }
        } else {
            boundary
        }
    }

    /// The peer coordinate that belongs to a point of the local edge.
    pub open spec fn entry_for(self, point: Point) -> Point {
        Point {
            x: self.peer.column(self.peer_edge.flipped()) as i32,
            y: mapped(
                point.y as int,
                self.local.y as int,
                self.local.height as int,
                self.peer.y as int,
                self.peer.height as int,
            ) as i32,
        }
    }

    /// The local coordinate that belongs to a point of the peer's edge.
    pub open spec fn return_for(self, point: Point) -> Point {
        self.interior(
            Point {
                x: self.local.column(self.peer_edge) as i32,
                y: mapped(
                    point.y as int,
                    self.peer.y as int,
                    self.peer.height as int,
                    self.local.y as int,
                    self.local.height as int,
                ) as i32,
            },
        )
    }

    /// Outcome of a barrier activation at `point`.
    pub open spec fn on_local_edge(self, point: Point) -> Transition {
        if self.state == HandoffState::Local && self.local.holds(point) && point.x
            == self.local.column(self.peer_edge) {
            Transition {
                state: HandoffState::EntryPending {
                    exit_edge: self.peer_edge,
                    entry: self.entry_for(point),
                    local_entry: point,
                },
                action: Some(HandoffAction::RequestPeerEntry { entry: self.entry_for(point) }),
            }
        } else {
            Transition { state: self.state, action: None }
        }
    }

    /// Outcome of an acknowledgement.
    pub open spec fn on_ack(self) -> Transition {
        match self.state {
            HandoffState::EntryPending { exit_edge, .. } => Transition {
                state: HandoffState::RemoteActive { exit_edge },
                action: Some(HandoffAction::BeginRemoteInput),
            },
            _ => Transition { state: self.state, action: None },
        }
    }

    /// Outcome of a rejection.
    pub open spec fn on_reject(self) -> Transition {
        match self.state {
            HandoffState::EntryPending { local_entry, .. } => Transition {
                state: HandoffState::Local,
                action: Some(HandoffAction::WarpLocalPointer { at: self.interior(local_entry) }),
            },
            _ => Transition { state: self.state, action: None },
        }
    }

    /// Outcome of a barrier reported by the peer.
    pub open spec fn on_peer_exit(self, edge: Edge, point: Point) -> Transition {
        match self.state {
            HandoffState::RemoteActive { exit_edge } if edge == exit_edge.flipped() && point.x
                == self.peer.column(edge) && self.peer.y <= point.y <= self.peer.bottom_edge() =>
            Transition {
                state: HandoffState::Local,
                action: Some(HandoffAction::ReturnToLocal { at: self.return_for(point) }),
            },
            _ => Transition { state: self.state, action: None },
        }
    }

    /// Outcome of a disconnect or cancellation.
    pub open spec fn on_cancel(self) -> Transition {
        if self.state == HandoffState::Local {
            Transition { state: self.state, action: None }
        } else {
            Transition {
                state: HandoffState::Local,
                action: Some(HandoffAction::ReleaseRemoteInput),
            }
        }
    }
}

/// Maps two independent logical screens and controls one horizontal handoff.
///
/// `peer_edge` is the edge of the *local* display adjoining the peer. For a
/// client positioned left of this display, use [`Edge::Left`]. Rectangles do
/// not need to be adjacent; their vertical ranges are scaled proportionally.
#[derive(Debug, Clone)]
pub struct HandoffController {
    local: Rect,
    peer: Rect,
    peer_edge: Edge,
    state: HandoffState,
}

impl View for HandoffController {
    type V = HandoffView;

    closed spec fn view(&self) -> HandoffView {
        HandoffView {
            local: self.local,
            peer: self.peer,
            peer_edge: self.peer_edge,
            state: self.state,
        }
    }
}

impl HandoffController {
    pub fn new(local: Rect, peer: Rect, peer_edge: Edge) -> (controller: HandoffController)
        ensures
            controller@ == (HandoffView { local, peer, peer_edge, state: HandoffState::Local }),
            controller@.wf() == (local.valid() && peer.valid()),
    {
        HandoffController { local, peer, peer_edge, state: HandoffState::Local }
    }

    pub fn state(&self) -> (state: HandoffState)
        ensures
            state == self@.state,
    {
        self.state
    }

    /// Processes a local pointer position. Only a point on the configured
    /// edge can begin a transfer; callers should feed this after a
    /// pointer-barrier activation, not for ordinary motion.
    pub fn local_edge_activated(&mut self, point: Point) -> (transition: Transition)
        requires
            old(self)@.wf(),
        ensures
            transition == old(self)@.on_local_edge(point),
            final(self)@ == old(self)@.with_state(transition.state),
            final(self)@.wf(),
    {
        if self.state != HandoffState::Local || !self.local.contains(point) || point.x
            != self.local.edge_x(self.peer_edge) {
            return Transition::unchanged(self.state);
        }
        proof {
            law_mapping_is_monotone_and_bounded(
                point.y as int,
                point.y as int,
                self.local.y as int,
                self.local.height as int,
                self.peer.y as int,
                self.peer.height as int,
            );
        }
        let entry = Point {
            x: self.peer.edge_x(self.peer_edge.opposite()),
            y: map_coordinate(
                point.y,
                self.local.y,
                self.local.height,
                self.peer.y,
                self.peer.height,
            ),
        };
        self.state =
        HandoffState::EntryPending { exit_edge: self.peer_edge, entry, local_entry: point };
        Transition::changed(self.state, HandoffAction::RequestPeerEntry { entry })
    }

    /// Completes a pending transfer only after a matching authenticated peer
    /// acknowledgement. Duplicate/out-of-order ACKs are harmless no-ops.
    pub fn peer_entry_acknowledged(&mut self) -> (transition: Transition)
        ensures
            transition == old(self)@.on_ack(),
            final(self)@ == old(self)@.with_state(transition.state),
            old(self)@.wf() ==> final(self)@.wf(),
    {
        match self.state {
            HandoffState::EntryPending { exit_edge, .. } => {
                self.state = HandoffState::RemoteActive { exit_edge };
                Transition::changed(self.state, HandoffAction::BeginRemoteInput)
            },
            _ => Transition::unchanged(self.state),
        }
    }

    /// Recovers locally when the peer rejects or times out a pending entry.
    pub fn peer_entry_rejected(&mut self) -> (transition: Transition)
        requires
            old(self)@.wf(),
        ensures
            transition == old(self)@.on_reject(),
            final(self)@ == old(self)@.with_state(transition.state),
            final(self)@.wf(),
    {
        match self.state {
            HandoffState::EntryPending { local_entry, .. } => {
                self.state = HandoffState::Local;
                Transition::changed(
                    self.state,
                    HandoffAction::WarpLocalPointer { at: self.local_interior(local_entry) },
                )
            },
            _ => Transition::unchanged(self.state),
        }
    }

    /// Handles a pointer barrier reported by the peer. A remote session may
    /// return only through the edge opposite the original departure edge.
    pub fn peer_exit_activated(&mut self, edge: Edge, point: Point) -> (transition: Transition)
        requires
            old(self)@.wf(),
        ensures
            transition == old(self)@.on_peer_exit(edge, point),
            final(self)@ == old(self)@.with_state(transition.state),
            final(self)@.wf(),
    {
        match self.state {
            HandoffState::RemoteActive { exit_edge } => {
                if edge != exit_edge.opposite() || point.x != self.peer.edge_x(edge) || point.y
                    < self.peer.y || point.y > self.peer.bottom().unwrap() {
                    return Transition::unchanged(self.state);
                }
                self.state = HandoffState::Local;
                proof {
                    law_mapping_is_monotone_and_bounded(
                        point.y as int,
                        point.y as int,
                        self.peer.y as int,
                        self.peer.height as int,
                        self.local.y as int,
                        self.local.height as int,
                    );
                }
                let local_y: i32 = map_coordinate(
                    point.y,
                    self.peer.y,
                    self.peer.height,
                    self.local.y,
                    self.local.height,
                );
                let at = self.local_interior(
                    Point { x: self.local.edge_x(exit_edge), y: local_y },
                );
                Transition::changed(self.state, HandoffAction::ReturnToLocal { at })
            },
            _ => Transition::unchanged(self.state),
        }
    }

    /// Cancels a handoff on transport loss or an explicit emergency release.
    /// Remote input is released for both pending and active sessions; doing so
    /// is idempotent and protects against a peer that accepted just before a
    /// disconnect was detected.
    pub fn disconnect_or_cancel(&mut self) -> (transition: Transition)
        ensures
            transition == old(self)@.on_cancel(),
            final(self)@ == old(self)@.with_state(transition.state),
            old(self)@.wf() ==> final(self)@.wf(),
            final(self)@.state == HandoffState::Local,
    {
        if self.state == HandoffState::Local {
            return Transition::unchanged(self.state);
        }
        self.state = HandoffState::Local;
        Transition::changed(self.state, HandoffAction::ReleaseRemoteInput)
    }

    /// A release at the exact barrier coordinate can immediately activate the
    /// same barrier again, so the pointer is restored one pixel inside.
    fn local_interior(&self, boundary: Point) -> (point: Point)
        requires
            self@.wf(),
        ensures
            point == self@.interior(boundary),
    {
        if self.local.width > 1 {
            Point {
                x: match self.peer_edge {
                    Edge::Left => self.local.x + 1,
                    Edge::Right => self.local.right().unwrap() - 1,
                },
                y: boundary.y,
            }
        } else {
            boundary
        }
    }
}

/// Remote input begins only on an acknowledgement of a pending entry; no other
/// observation leads into the remote-active state.
pub proof fn law_remote_input_needs_acknowledgement(view: HandoffView, edge: Edge, point: Point)
    requires
        view.wf(),
    ensures
        view.on_ack().action == Some(HandoffAction::BeginRemoteInput)
            <==> view.state is EntryPending,
        view.on_ack().state is RemoteActive ==> (view.state is EntryPending
            || view.state is RemoteActive),
        view.on_local_edge(point).state is RemoteActive ==> view.state is RemoteActive,
        view.on_reject().state is RemoteActive ==> view.state is RemoteActive,
        view.on_peer_exit(edge, point).state is RemoteActive ==> view.state is RemoteActive,
        !(view.on_cancel().state is RemoteActive),
        view.on_local_edge(point).action != Some(HandoffAction::BeginRemoteInput),
        view.on_reject().action != Some(HandoffAction::BeginRemoteInput),
        view.on_peer_exit(edge, point).action != Some(HandoffAction::BeginRemoteInput),
        view.on_cancel().action != Some(HandoffAction::BeginRemoteInput),
{
}

/// An entry request lands on the peer's display, on the edge facing this one,
/// at the proportional height.
pub proof fn law_entry_lies_on_the_facing_edge(view: HandoffView, point: Point)
    requires
        view.wf(),
        view.on_local_edge(point).action is Some,
    ensures
        view.peer.holds(view.entry_for(point)),
        view.entry_for(point).x == view.peer.column(view.peer_edge.flipped()),
        point.y == view.local.y ==> view.entry_for(point).y == view.peer.y,
        point.y == view.local.bottom_edge() && view.local.height > 1 ==> view.entry_for(point).y
            == view.peer.bottom_edge(),
{
    law_mapping_is_monotone_and_bounded(
        point.y as int,
        point.y as int,
        view.local.y as int,
        view.local.height as int,
        view.peer.y as int,
        view.peer.height as int,
    );
}

/// A returned pointer stands on the local display and, where the display has
/// an interior column, not on the barrier it left through.
pub proof fn law_return_avoids_the_barrier(view: HandoffView, edge: Edge, point: Point)
    requires
        view.wf(),
        view.on_peer_exit(edge, point).action is Some,
    ensures
        view.local.holds(view.return_for(point)),
        view.local.width > 1 ==> view.return_for(point).x != view.local.column(view.peer_edge),
        edge == view.peer_edge.flipped(),
{
    law_mapping_is_monotone_and_bounded(
        point.y as int,
        point.y as int,
        view.peer.y as int,
        view.peer.height as int,
        view.local.y as int,
        view.local.height as int,
    );
}

/// A rejected entry restores the pointer at the height where it left.
pub proof fn law_rejection_restores_the_pointer(view: HandoffView)
    requires
        view.wf(),
        view.state is EntryPending,
    ensures
        view.on_reject().state == HandoffState::Local,
        view.on_reject().action matches Some(HandoffAction::WarpLocalPointer { at })
            && view.local.holds(at) && at.y == view.state->local_entry.y,
{
}

/// Cancelling twice releases once, and a second acknowledgement changes nothing.
pub proof fn law_repeated_observations_are_harmless(view: HandoffView)
    ensures
        view.on_cancel().state == HandoffState::Local,
        view.with_state(view.on_cancel().state).on_cancel().action is None,
        view.with_state(view.on_ack().state).on_ack() == (Transition {
            state: view.on_ack().state,
            action: None,
        }),
        view.on_cancel().action is Some <==> view.state != HandoffState::Local,
{
}

/// Whether `image`, a row of a span of `onto` rows, is the one that lies at the
/// same relative height as row `offset` of a span of `len` rows: no other row is
/// nearer, and of two that are equally near it is the lower one.
pub open spec fn at_same_height(offset: int, len: int, image: int, onto: int) -> bool {
    if len == 1 || onto == 1 {
        image == 0
    } else {
        &&& 0 <= image < onto
        &&& 2 * (image * (len - 1) - offset * (onto - 1)) <= len - 1
        &&& 2 * (offset * (onto - 1) - image * (len - 1)) < len - 1
    }
}

proof fn lemma_mapped_height(
    value: int,
    source_start: int,
    source_len: int,
    destination_start: int,
    destination_len: int,
)
    requires
        source_len >= 1,
        destination_len >= 1,
        source_start <= value < source_start + source_len,
    ensures
        at_same_height(
            value - source_start,
            source_len,
            mapped(value, source_start, source_len, destination_start, destination_len)
                - destination_start,
            destination_len,
        ),
{
    if source_len > 1 && destination_len > 1 {
        let s = source_len - 1;
        let d = destination_len - 1;
        let o = value - source_start;
        let total = o * d + s / 2;
        let image = total / s;
        lemma_scaled(o, s, d);
        vstd::arithmetic::div_mod::lemma_fundamental_div_mod(total, s);
        assert(image * s == s * image) by (nonlinear_arith);
        assert(mapped(value, source_start, source_len, destination_start, destination_len)
            - destination_start == image);
    }
}

/// Every crossing of the configured edge, in any of its rows, asks the peer for
/// an entry: in the column of the peer's display that faces this one, at the
/// same relative height. No other point does anything.
pub proof fn law_every_crossing_asks_for_an_entry(view: HandoffView, point: Point)
    requires
        0 < view.local.width <= i32::MAX,
        0 < view.local.height <= i32::MAX,
        0 < view.peer.width <= i32::MAX,
        0 < view.peer.height <= i32::MAX,
        view.local.x + view.local.width - 1 <= i32::MAX,
        view.local.y + view.local.height - 1 <= i32::MAX,
        view.peer.x + view.peer.width - 1 <= i32::MAX,
        view.peer.y + view.peer.height - 1 <= i32::MAX,
        view.state == HandoffState::Local,
    ensures
        view.wf(),
        ({
            let edge_column = if view.peer_edge == Edge::Left {
                view.local.x as int
            } else {
                view.local.x + view.local.width - 1
            };
            let facing_column = if view.peer_edge == Edge::Left {
                view.peer.x + view.peer.width - 1
            } else {
                view.peer.x as int
            };
            let outcome = view.on_local_edge(point);
            if point.x == edge_column && view.local.y <= point.y < view.local.y
                + view.local.height {
                outcome.action matches Some(HandoffAction::RequestPeerEntry { entry })
                    && outcome.state == (HandoffState::EntryPending {
                    exit_edge: view.peer_edge,
                    entry,
                    local_entry: point,
                }) && entry.x == facing_column && view.peer.y <= entry.y < view.peer.y
                    + view.peer.height && at_same_height(
                    point.y - view.local.y,
                    view.local.height as int,
                    entry.y - view.peer.y,
                    view.peer.height as int,
                )
            } else {
                outcome.action is None && outcome.state == HandoffState::Local
            }
        }),
{
    if view.local.y <= point.y < view.local.y + view.local.height {
        lemma_mapped_height(
            point.y as int,
            view.local.y as int,
            view.local.height as int,
            view.peer.y as int,
            view.peer.height as int,
        );
    }
    law_mapping_is_monotone_and_bounded(
        point.y as int,
        point.y as int,
        view.local.y as int,
        view.local.height as int,
        view.peer.y as int,
        view.peer.height as int,
    );
}

/// While the peer has input, every crossing of its facing edge, from the first
/// row to the last, brings input home: one column inside the edge that it left
/// through, if the display has another column, at the same relative height. No
/// other point and no other edge does anything.
pub proof fn law_every_crossing_back_returns_input(view: HandoffView, edge: Edge, point: Point)
    requires
        0 < view.local.width <= i32::MAX,
        0 < view.local.height <= i32::MAX,
        0 < view.peer.width <= i32::MAX,
        0 < view.peer.height <= i32::MAX,
        view.local.x + view.local.width - 1 <= i32::MAX,
        view.local.y + view.local.height - 1 <= i32::MAX,
        view.peer.x + view.peer.width - 1 <= i32::MAX,
        view.peer.y + view.peer.height - 1 <= i32::MAX,
        view.state == (HandoffState::RemoteActive { exit_edge: view.peer_edge }),
    ensures
        view.wf(),
        ({
            let facing_column = if view.peer_edge == Edge::Left {
                view.peer.x + view.peer.width - 1
            } else {
                view.peer.x as int
            };
            let inner_column = if view.local.width == 1 {
                view.local.x as int
            } else if view.peer_edge == Edge::Left {
                view.local.x + 1
            } else {
                view.local.x + view.local.width - 2
            };
            let outcome = view.on_peer_exit(edge, point);
            if edge != view.peer_edge && point.x == facing_column && view.peer.y <= point.y
                < view.peer.y + view.peer.height {
                outcome.state == HandoffState::Local && (outcome.action matches Some(
                    HandoffAction::ReturnToLocal { at },
                ) && at.x == inner_column && view.local.y <= at.y < view.local.y
                    + view.local.height && at_same_height(
                    point.y - view.peer.y,
                    view.peer.height as int,
                    at.y - view.local.y,
                    view.local.height as int,
                ))
            } else {
                outcome.action is None && outcome.state == view.state
            }
        }),
{
    if view.peer.y <= point.y < view.peer.y + view.peer.height {
        lemma_mapped_height(
            point.y as int,
            view.peer.y as int,
            view.peer.height as int,
            view.local.y as int,
            view.local.height as int,
        );
    }
    law_mapping_is_monotone_and_bounded(
        point.y as int,
        point.y as int,
        view.peer.y as int,
        view.peer.height as int,
        view.local.y as int,
        view.local.height as int,
    );
}

/// An answer of the peer ends the wait for it: an acknowledgement hands input
/// over, a rejection puts the pointer back in its row, one column inside the
/// edge if the display has another column. Without a pending entry neither
/// does anything, and neither crossing does anything out of its turn.
pub proof fn law_answers_end_the_wait(view: HandoffView, edge: Edge, point: Point)
    requires
        view.wf(),
    ensures
        match view.state {
            HandoffState::EntryPending { exit_edge, entry, local_entry } => {
                &&& view.on_ack().state == (HandoffState::RemoteActive { exit_edge })
                &&& view.on_ack().action == Some(HandoffAction::BeginRemoteInput)
                &&& view.on_reject().state == HandoffState::Local
                &&& view.on_reject().action matches Some(HandoffAction::WarpLocalPointer { at })
                    && at.y == local_entry.y && at.x == if view.local.width == 1 {
                    local_entry.x as int
                } else if view.peer_edge == Edge::Left {
                    view.local.x + 1
                } else {
                    view.local.x + view.local.width - 2
                }
            },
            _ => {
                &&& view.on_ack().state == view.state && view.on_ack().action is None
                &&& view.on_reject().state == view.state && view.on_reject().action is None
            },
        },
        view.state != HandoffState::Local ==> view.on_local_edge(point).state == view.state
            && view.on_local_edge(point).action is None && view.on_cancel().state
            == HandoffState::Local && view.on_cancel().action == Some(
            HandoffAction::ReleaseRemoteInput,
        ),
        !(view.state is RemoteActive) ==> view.on_peer_exit(edge, point).state == view.state
            && view.on_peer_exit(edge, point).action is None,
{
}

/// What a display is, pixel by pixel: its edges are its first and last columns,
/// a point is on it exactly if it is in one of its columns and rows, and it is
/// valid exactly if it has a pixel and all its pixels have coordinates.
pub proof fn law_displays_are_made_of_pixels(rect: Rect, point: Point, edge: Edge)
    ensures
        edge.flipped() != edge,
        edge.flipped().flipped() == edge,
        rect.column(Edge::Left) == rect.x,
        rect.column(Edge::Right) == rect.x + rect.width - 1,
        rect.valid() <==> 0 < rect.width < 0x8000_0000 && 0 < rect.height < 0x8000_0000 && rect.x
            + rect.width <= 0x8000_0000 && rect.y + rect.height <= 0x8000_0000,
        rect.valid() ==> (rect.holds(point) <==> 0 <= point.x - rect.x < rect.width && 0 <= point.y
            - rect.y < rect.height),
{
}

} // verus!
