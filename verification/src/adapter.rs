//! Between the portal sessions and the handoff coordinators: what captured
//! events become on the wire, and what wire events become on the other side.
use std::collections::VecDeque;

use vstd::prelude::*;

use crate::backend::{BackendError, BackendErrorKind};
use crate::handoff::Point;
use crate::libei_capture::{AbsoluteUpdate, CapturedEvent, Rounded};
use crate::libei_inject::InputState;
use crate::pinch::{PinchZoomTracker, MAX_ZOOM_STEPS};
use crate::portal_persistence::{PortalPersistence, RestoreToken};
use crate::portal_spike::{
    CaptureCapabilities, CaptureEdge, CaptureSetup, CaptureSignal, CursorPosition,
    InputCaptureSession,
};
use crate::protocol::{TouchPhase, WireEdge, WireInputEvent, WireTouchEvent};
use crate::seamless::CapturedInput;
use crate::text::push_decimal;

verus! {

pub const EV_SYN: u16 = 0;

pub const EV_KEY: u16 = 1;

pub const EV_REL: u16 = 2;

pub const SYN_REPORT: u16 = 0;

pub const REL_X: u16 = 0;

pub const REL_Y: u16 = 1;

pub const REL_HWHEEL: u16 = 6;

pub const REL_WHEEL: u16 = 8;

/// Smooth scrolling has markers of its own so that the other side can call the
/// matching interface. They are never emitted to a kernel device.
pub const REL_WHEEL_HI_RES: u16 = 11;

pub const REL_HWHEEL_HI_RES: u16 = 12;

pub const BTN_MOUSE_FIRST: u16 = 0x110;

pub open spec fn wire(event_type: u16, code: u16, value: i32) -> WireInputEvent {
    WireInputEvent { event_type, code, value }
}

fn wire_event(event_type: u16, code: u16, value: i32) -> (event: WireInputEvent)
    ensures
        event == wire(event_type, code, value),
{
    WireInputEvent { event_type, code, value }
}

/// One event, unless its value is zero.
pub open spec fn unless_zero(event_type: u16, code: u16, value: i32) -> Seq<WireInputEvent> {
    if value != 0 {
        seq![wire(event_type, code, value)]
    } else {
        Seq::empty()
    }
}

fn push_unless_zero(events: &mut Vec<WireInputEvent>, event_type: u16, code: u16, value: i32)
    ensures
        final(events)@ == old(events)@ + unless_zero(event_type, code, value),
{
    if value != 0 {
        events.push(wire_event(event_type, code, value));
    }
    assert(events@ =~= old(events)@ + unless_zero(event_type, code, value));
}

/// A relative movement as one event for each axis that moved.
pub fn relative_wire_events(dx: i32, dy: i32) -> (events: Vec<WireInputEvent>)
    ensures
        events@ == unless_zero(EV_REL, REL_X, dx) + unless_zero(EV_REL, REL_Y, dy),
{
    let mut events: Vec<WireInputEvent> = Vec::new();
    push_unless_zero(&mut events, EV_REL, REL_X, dx);
    push_unless_zero(&mut events, EV_REL, REL_Y, dy);
    assert(events@ =~= unless_zero(EV_REL, REL_X, dx) + unless_zero(EV_REL, REL_Y, dy));
    events
}

/// Why an event cannot be taken in.
#[derive(Debug, PartialEq, Eq)]
pub enum EventFault {
    /// The coordinate with this text has no place on the wire.
    Unrepresentable(String),
    /// Absolute positions go through the tracker.
    Untracked,
    /// An absolute position was not finite.
    NotFinite,
}

/// Says that a coordinate with this text does not fit the wire.
pub open spec fn unrepresentable_text(value: Seq<char>) -> Seq<char> {
    "portal coordinate "@ + value + " cannot be represented as i32"@
}

fn unrepresentable(value: &str) -> (error: BackendError)
    ensures
        error.says(BackendErrorKind::InvalidData, unrepresentable_text(value@)),
{
    let mut text = String::new();
    text.push_str("portal coordinate ");
    text.push_str(value);
    text.push_str(" cannot be represented as i32");
    assert(text@ =~= unrepresentable_text(value@));
    BackendError { kind: BackendErrorKind::InvalidData, message: text }
}

/// Two coordinates, or the fault of the first one that does not fit.
pub open spec fn both(x: Rounded, y: Rounded) -> Result<(i32, i32), EventFault> {
    match (x, y) {
        (Rounded::Whole(x), Rounded::Whole(y)) => Ok((x, y)),
        (Rounded::Beyond(text), _) => Err(EventFault::Unrepresentable(text)),
        (_, Rounded::Beyond(text)) => Err(EventFault::Unrepresentable(text)),
    }
}

fn both_of(x: &Rounded, y: &Rounded) -> (pair: Result<(i32, i32), EventFault>)
    ensures
        pair == both(*x, *y),
{
    match (x, y) {
        (Rounded::Whole(x), Rounded::Whole(y)) => Ok((*x, *y)),
        (Rounded::Beyond(text), _) => Err(EventFault::Unrepresentable(text.clone())),
        (_, Rounded::Beyond(text)) => Err(EventFault::Unrepresentable(text.clone())),
    }
}

impl EventFault {
    pub open spec fn kind(self) -> BackendErrorKind {
        match self {
            EventFault::Untracked => BackendErrorKind::InvalidInput,
            _ => BackendErrorKind::InvalidData,
        }
    }

    pub open spec fn text(self) -> Seq<char> {
        match self {
            EventFault::Unrepresentable(value) => unrepresentable_text(value@),
            EventFault::Untracked => "absolute pointer events must pass through the motion tracker"@,
            EventFault::NotFinite => "absolute pointer coordinates must be finite"@,
        }
    }

    fn error(self) -> (error: BackendError)
        ensures
            error.says(self.kind(), self.text()),
    {
        match self {
            EventFault::Unrepresentable(value) => unrepresentable(value.as_str()),
            EventFault::Untracked => BackendError::new(
                BackendErrorKind::InvalidInput,
                "absolute pointer events must pass through the motion tracker",
            ),
            EventFault::NotFinite => BackendError::new(
                BackendErrorKind::InvalidData,
                "absolute pointer coordinates must be finite",
            ),
        }
    }
}

pub open spec fn pressed_value(pressed: bool) -> i32 {
    if pressed {
        1
    } else {
        0
    }
}

/// The wire events of a captured event.
pub open spec fn wire_events(event: CapturedEvent) -> Result<Seq<WireInputEvent>, EventFault> {
    match event {
        CapturedEvent::RelativePointer { dx, dy } => match both(dx, dy) {
            Ok((dx, dy)) => Ok(unless_zero(EV_REL, REL_X, dx) + unless_zero(EV_REL, REL_Y, dy)),
            Err(fault) => Err(fault),
        },
        CapturedEvent::AbsolutePointer(_) => Err(EventFault::Untracked),
        CapturedEvent::Button { evdev, pressed } => Ok(
            seq![wire(EV_KEY, evdev, pressed_value(pressed))],
        ),
        CapturedEvent::Key { evdev, pressed } => Ok(
            seq![wire(EV_KEY, evdev, pressed_value(pressed))],
        ),
        CapturedEvent::ScrollDelta { horizontal, vertical, .. } => match both(
            horizontal,
            vertical,
        ) {
            Ok((horizontal, vertical)) => Ok(
                unless_zero(EV_REL, REL_HWHEEL_HI_RES, horizontal) + unless_zero(
                    EV_REL,
                    REL_WHEEL_HI_RES,
                    vertical,
                ),
            ),
            Err(fault) => Err(fault),
        },
        CapturedEvent::ScrollDiscrete { horizontal, vertical } => Ok(
            unless_zero(EV_REL, REL_HWHEEL, horizontal) + unless_zero(EV_REL, REL_WHEEL, vertical),
        ),
        CapturedEvent::Frame { .. } => Ok(seq![wire(EV_SYN, SYN_REPORT, 0)]),
        _ => Ok(Seq::empty()),
    }
}

fn wire_events_of(event: &CapturedEvent) -> (result: Result<Vec<WireInputEvent>, EventFault>)
    ensures
        match result {
            Ok(events) => wire_events(*event) == Ok::<Seq<WireInputEvent>, EventFault>(events@),
            Err(fault) => wire_events(*event) == Err::<Seq<WireInputEvent>, EventFault>(fault),
        },
{
    let mut events: Vec<WireInputEvent> = Vec::new();
    match event {
        CapturedEvent::RelativePointer { dx, dy } => match both_of(dx, dy) {
            Ok((dx, dy)) => {
                return Ok(relative_wire_events(dx, dy));
            },
            Err(fault) => {
                return Err(fault);
            },
        },
        CapturedEvent::AbsolutePointer(_) => {
            return Err(EventFault::Untracked);
        },
        CapturedEvent::Button { evdev, pressed } => {
            events.push(wire_event(EV_KEY, *evdev, *pressed as i32));
        },
        CapturedEvent::Key { evdev, pressed } => {
            events.push(wire_event(EV_KEY, *evdev, *pressed as i32));
        },
        CapturedEvent::ScrollDelta { horizontal, vertical, .. } => match both_of(
            horizontal,
            vertical,
        ) {
            Ok((horizontal, vertical)) => {
                push_unless_zero(&mut events, EV_REL, REL_HWHEEL_HI_RES, horizontal);
                push_unless_zero(&mut events, EV_REL, REL_WHEEL_HI_RES, vertical);
            },
            Err(fault) => {
                return Err(fault);
            },
        },
        CapturedEvent::ScrollDiscrete { horizontal, vertical } => {
            push_unless_zero(&mut events, EV_REL, REL_HWHEEL, *horizontal);
            push_unless_zero(&mut events, EV_REL, REL_WHEEL, *vertical);
        },
        CapturedEvent::Frame { .. } => {
            events.push(wire_event(EV_SYN, SYN_REPORT, 0));
        },
        _ => {},
    }
    assert(events@ =~= wire_events(*event)->Ok_0);
    Ok(events)
}

/// The wire events of a captured event, or why there are none.
pub fn captured_to_wire(event: CapturedEvent) -> (result: Result<
    Vec<WireInputEvent>,
    BackendError,
>)
    ensures
        match result {
            Ok(events) => wire_events(event) == Ok::<Seq<WireInputEvent>, EventFault>(events@),
            Err(error) => wire_events(event) matches Err(fault) && error.says(
                fault.kind(),
                fault.text(),
            ),
        },
{
    match wire_events_of(&event) {
        Ok(events) => Ok(events),
        Err(fault) => Err(fault.error()),
    }
}

pub open spec fn expected_deactivation(expected: Option<u32>, observed: Option<u32>) -> bool {
    expected is Some && (observed is None || observed == expected)
}

/// Whether a deactivation is the normal end of a release. Some portals omit
/// the activation; there can be only one, so that still acknowledges it.
pub fn is_expected_release_deactivation(expected: Option<u32>, observed: Option<u32>) -> (normal:
    bool)
    ensures
        normal == expected_deactivation(expected, observed),
{
    match (expected, observed) {
        (Some(activation), Some(actual)) => actual == activation,
        (Some(_), None) => true,
        (None, _) => false,
    }
}

/// The barrier edge of the controlled side.
pub fn capture_edge(edge: WireEdge) -> (barrier: CaptureEdge)
    ensures
        barrier == barrier_edge(edge),
{
    match edge {
        WireEdge::Left => CaptureEdge::Left,
        WireEdge::Right => CaptureEdge::Right,
    }
}

pub open spec fn barrier_edge(edge: WireEdge) -> CaptureEdge {
    match edge {
        WireEdge::Left => CaptureEdge::Left,
        WireEdge::Right => CaptureEdge::Right,
    }
}

pub open spec fn saturated(value: int) -> int {
    if value > i32::MAX {
        i32::MAX as int
    } else if value < i32::MIN {
        i32::MIN as int
    } else {
        value
    }
}

/// What the capture adapter knows.
pub struct AdapterView {
    /// Column of the armed edge.
    pub edge_x: i32,
    /// The activation that the portal has to be told to release.
    pub active: Option<u32>,
    /// The activation whose deactivation is still to come.
    pub releasing: Option<u32>,
    /// Movement that is not queued yet.
    pub motion: (i32, i32),
    /// Axes that scrolled smoothly in this frame.
    pub smooth: (bool, bool),
    pub pinch: crate::pinch::PinchView,
    pub pending: Seq<CapturedInput>,
}

/// Wire events as captured input.
pub open spec fn as_inputs(events: Seq<WireInputEvent>) -> Seq<CapturedInput> {
    events.map_values(|event: WireInputEvent| CapturedInput::Event(event))
}

impl AdapterView {
    pub open spec fn queued(self, inputs: Seq<CapturedInput>) -> AdapterView {
        AdapterView { pending: self.pending + inputs, ..self }
    }

    pub open spec fn moved(self, dx: i32, dy: i32) -> AdapterView {
        AdapterView {
            motion: (
                saturated(self.motion.0 + dx) as i32,
                saturated(self.motion.1 + dy) as i32,
            ),
            ..self
        }
    }

    /// The state with the movement in the queue.
    pub open spec fn flushed(self) -> AdapterView {
        if self.motion == (0i32, 0i32) {
            self
        } else {
            AdapterView {
                motion: (0, 0),
                pending: self.pending.push(
                    CapturedInput::Motion { dx: self.motion.0, dy: self.motion.1 },
                ),
                ..self
            }
        }
    }

    /// The state after an event, and its fault. What was done before the fault
    /// was found stays done.
    pub open spec fn after(self, event: CapturedEvent) -> (AdapterView, Option<EventFault>) {
        match event {
            CapturedEvent::AbsolutePointer(update) => match update {
                AbsoluteUpdate::Origin => (self, None),
                AbsoluteUpdate::Moved { dx, dy } => (self.moved(dx, dy), None),
                AbsoluteUpdate::Invalid => (self, Some(EventFault::NotFinite)),
            },
            CapturedEvent::RelativePointer { dx, dy } => match both(dx, dy) {
                Ok((dx, dy)) => (self.moved(dx, dy), None),
                Err(fault) => (self, Some(fault)),
            },
            CapturedEvent::ScrollDelta { moved_horizontal, moved_vertical, .. } => {
                let noted = AdapterView {
                    smooth: (self.smooth.0 || moved_horizontal, self.smooth.1 || moved_vertical),
                    ..self.flushed()
                };
                match wire_events(event) {
                    Ok(events) => (noted.queued(as_inputs(events)), None),
                    Err(fault) => (noted, Some(fault)),
                }
            },
            CapturedEvent::ScrollDiscrete { horizontal, vertical } => {
                // Smooth data is authoritative: the same physical scroll may
                // come as a wheel click too.
                let kept = CapturedEvent::ScrollDiscrete {
                    horizontal: if self.smooth.0 {
                        0
                    } else {
                        horizontal
                    },
                    vertical: if self.smooth.1 {
                        0
                    } else {
                        vertical
                    },
                };
                (self.flushed().queued(as_inputs(wire_events(kept)->Ok_0)), None)
            },
            CapturedEvent::TouchDown { id, x, y } => {
                let before = self.flushed();
                (
                    AdapterView { pinch: before.pinch.after_down(id, x, y), ..before }.queued(
                        seq![
                            CapturedInput::Touch(
                                WireTouchEvent { phase: TouchPhase::Down, id, x, y },
                            ),
                        ],
                    ),
                    None,
                )
            },
            CapturedEvent::TouchMotion { id, x, y, zoom_steps } => {
                let before = self.flushed();
                (
                    AdapterView {
                        pinch: before.pinch.after_motion(id, x, y, zoom_steps),
                        ..before
                    }.queued(as_inputs(before.pinch.motion_events(id, zoom_steps))).queued(
                        seq![
                            CapturedInput::Touch(
                                WireTouchEvent { phase: TouchPhase::Motion, id, x, y },
                            ),
                        ],
                    ),
                    None,
                )
            },
            CapturedEvent::TouchUp { id, cancelled } => {
                let before = self.flushed();
                (
                    AdapterView { pinch: before.pinch.after_up(id), ..before }.queued(
                        seq![
                            CapturedInput::Touch(
                                WireTouchEvent {
                                    phase: if cancelled {
                                        TouchPhase::Cancel
                                    } else {
                                        TouchPhase::Up
                                    },
                                    id,
                                    x: 0,
                                    y: 0,
                                },
                            ),
                        ],
                    ).queued(as_inputs(before.pinch.up_events(id))),
                    None,
                )
            },
            CapturedEvent::Frame { .. } => (
                AdapterView { smooth: (false, false), ..self.flushed() },
                None,
            ),
            _ => (self.flushed().queued(as_inputs(wire_events(event)->Ok_0)), None),
        }
    }

    /// The state after the events from `i` on, and the fault that stopped them.
    /// Movement that is left at the end is queued.
    pub open spec fn drained(self, events: Seq<CapturedEvent>, i: int) -> (
        AdapterView,
        Option<EventFault>,
    )
        decreases events.len() - i,
    {
        if i < 0 || i >= events.len() {
            (self.flushed(), None)
        } else {
            let (next, fault) = self.after(events[i]);
            if fault is Some {
                (next, fault)
            } else {
                next.drained(events, i + 1)
            }
        }
    }
}

/// Events whose zoom steps a wheel event can carry.
pub open spec fn carriable(events: Seq<CapturedEvent>) -> bool {
    forall|i: int|
        0 <= i < events.len() ==> ((#[trigger] events[i]) matches CapturedEvent::TouchMotion {
            zoom_steps,
            ..
        } ==> -MAX_ZOOM_STEPS <= zoom_steps <= MAX_ZOOM_STEPS)
}

fn saturating_sum(a: i32, b: i32) -> (sum: i32)
    ensures
        sum == saturated(a + b),
{
    let wide: i64 = a as i64 + b as i64;
    if wide > 0x7fff_ffff {
        0x7fff_ffff
    } else if wide < -0x8000_0000 {
        -0x8000_0000
    } else {
        wide as i32
    }
}

/// Turns a capture session's events into ordered input for the other side. It
/// owns the portal activation so every stop path can name the one to release.
pub struct InputCaptureAdapter {
    local_edge_x: i32,
    active_activation: Option<u32>,
    pending_release_deactivation: Option<u32>,
    pending_motion: (i32, i32),
    smooth_scroll_axes: (bool, bool),
    pinch_zoom: PinchZoomTracker,
    pending: VecDeque<CapturedInput>,
}

impl View for InputCaptureAdapter {
    type V = AdapterView;

    closed spec fn view(&self) -> AdapterView {
        AdapterView {
            edge_x: self.local_edge_x,
            active: self.active_activation,
            releasing: self.pending_release_deactivation,
            motion: self.pending_motion,
            smooth: self.smooth_scroll_axes,
            pinch: self.pinch_zoom@,
            pending: self.pending@,
        }
    }
}

pub open spec fn fresh_adapter(edge_x: i32) -> AdapterView {
    AdapterView {
        edge_x,
        active: None,
        releasing: None,
        motion: (0, 0),
        smooth: (false, false),
        pinch: crate::pinch::PinchView::idle(),
        pending: Seq::empty(),
    }
}

impl InputCaptureAdapter {
    pub closed spec fn wf(&self) -> bool {
        self.pinch_zoom.wf()
    }

    fn fresh(local_edge_x: i32) -> (adapter: InputCaptureAdapter)
        ensures
            adapter.wf(),
            adapter@ == fresh_adapter(local_edge_x),
    {
        InputCaptureAdapter {
            local_edge_x,
            active_activation: None,
            pending_release_deactivation: None,
            pending_motion: (0, 0),
            smooth_scroll_axes: (false, false),
            pinch_zoom: PinchZoomTracker::new(),
            pending: VecDeque::new(),
        }
    }

    /// An adapter and the session that it needs.
    pub fn start(edge: CaptureEdge, local_edge_x: i32) -> (started: (
        InputCaptureAdapter,
        CaptureSetup,
    ))
        ensures
            started.0.wf(),
            started.0@ == fresh_adapter(local_edge_x),
            started.1@ == crate::portal_spike::fresh_setup(
                edge,
                CaptureCapabilities::KeyboardPointerTouch,
                crate::portal_spike::no_persistence(),
            ),
            started.1@.wf(),
    {
        (
            Self::fresh(local_edge_x),
            InputCaptureSession::start(edge, CaptureCapabilities::KeyboardPointerTouch),
        )
    }

    pub fn start_with_persistence(
        edge: CaptureEdge,
        local_edge_x: i32,
        persistence: PortalPersistence,
    ) -> (started: (InputCaptureAdapter, CaptureSetup))
        ensures
            started.0.wf(),
            started.0@ == fresh_adapter(local_edge_x),
            started.1@ == crate::portal_spike::fresh_setup(
                edge,
                CaptureCapabilities::KeyboardPointerTouch,
                persistence@,
            ),
            started.1@.wf(),
    {
        (
            Self::fresh(local_edge_x),
            InputCaptureSession::start_with_persistence(
                edge,
                CaptureCapabilities::KeyboardPointerTouch,
                persistence,
            ),
        )
    }

    pub fn start_left(local_left_x: i32) -> (started: (InputCaptureAdapter, CaptureSetup))
        ensures
            started.0.wf(),
            started.0@ == fresh_adapter(local_left_x),
            started.1@ == crate::portal_spike::fresh_setup(
                CaptureEdge::Left,
                CaptureCapabilities::KeyboardPointerTouch,
                crate::portal_spike::no_persistence(),
            ),
            started.1@.wf(),
    {
        Self::start(CaptureEdge::Left, local_left_x)
    }

    pub fn start_left_with_persistence(local_left_x: i32, persistence: PortalPersistence) -> (started:
        (InputCaptureAdapter, CaptureSetup))
        ensures
            started.0.wf(),
            started.0@ == fresh_adapter(local_left_x),
            started.1@ == crate::portal_spike::fresh_setup(
                CaptureEdge::Left,
                CaptureCapabilities::KeyboardPointerTouch,
                persistence@,
            ),
            started.1@.wf(),
    {
        Self::start_with_persistence(CaptureEdge::Left, local_left_x, persistence)
    }

    fn queue_motion(&mut self, dx: i32, dy: i32)
        requires
            old(self).wf(),
        ensures
            final(self).wf(),
            final(self)@ == old(self)@.moved(dx, dy),
    {
        let x: i32 = saturating_sum(self.pending_motion.0, dx);
        let y: i32 = saturating_sum(self.pending_motion.1, dy);
        self.pending_motion = (x, y);
    }

    fn flush_motion(&mut self)
        requires
            old(self).wf(),
        ensures
            final(self).wf(),
            final(self)@ == old(self)@.flushed(),
    {
        let (dx, dy) = self.pending_motion;
        if dx != 0 || dy != 0 {
            self.pending_motion = (0, 0);
            self.pending.push_back(CapturedInput::Motion { dx, dy });
        }
    }

    /// Queues events that came another way, such as zoom input.
    pub fn queue_events(&mut self, events: &Vec<WireInputEvent>)
        requires
            old(self).wf(),
        ensures
            final(self).wf(),
            final(self)@ == old(self)@.queued(as_inputs(events@)),
    {
        let mut i: usize = 0;
        assert(as_inputs(events@.take(0)) =~= Seq::empty());
        assert(self.pending@ + as_inputs(events@.take(0)) =~= self.pending@);
        while i < events.len()
            invariant
                i <= events.len(),
                self.wf(),
                self@ == (AdapterView {
                    pending: old(self)@.pending + as_inputs(events@.take(i as int)),
                    ..old(self)@
                }),
            decreases events.len() - i,
        {
            self.pending.push_back(CapturedInput::Event(events[i]));
            proof {
                let next = as_inputs(events@.take(i + 1));
                let done = as_inputs(events@.take(i as int));
                assert(next =~= done.push(CapturedInput::Event(events@[i as int])));
                assert(self.pending@ =~= old(self)@.pending + next);
            }
            i = i + 1;
        }
        assert(events@.take(i as int) =~= events@);
    }

    /// The next input in the queue.
    pub fn take_pending(&mut self) -> (input: Option<CapturedInput>)
        requires
            old(self).wf(),
        ensures
            final(self).wf(),
            if old(self)@.pending.len() == 0 {
                input is None && final(self)@ == old(self)@
            } else {
                input == Some(old(self)@.pending[0]) && final(self)@ == (AdapterView {
                    pending: old(self)@.pending.skip(1),
                    ..old(self)@
                })
            },
    {
        let ghost before = self.pending@;
        let input = self.pending.pop_front();
        proof {
            if before.len() > 0 {
                assert(self.pending@ =~= before.skip(1));
            } else {
                assert(self.pending@ =~= before);
            }
        }
        input
    }

    fn accept(&mut self, event: &CapturedEvent) -> (result: Result<(), EventFault>)
        requires
            old(self).wf(),
            *event matches CapturedEvent::TouchMotion { zoom_steps, .. } ==> -MAX_ZOOM_STEPS
                <= zoom_steps <= MAX_ZOOM_STEPS,
        ensures
            final(self).wf(),
            final(self)@ == old(self)@.after(*event).0,
            match result {
                Ok(_) => old(self)@.after(*event).1 is None,
                Err(fault) => old(self)@.after(*event).1 == Some(fault),
            },
    {
        match event {
            CapturedEvent::AbsolutePointer(update) => match update {
                AbsoluteUpdate::Origin => Ok(()),
                AbsoluteUpdate::Moved { dx, dy } => {
                    self.queue_motion(*dx, *dy);
                    Ok(())
                },
                AbsoluteUpdate::Invalid => Err(EventFault::NotFinite),
            },
            CapturedEvent::RelativePointer { dx, dy } => match both_of(dx, dy) {
                Ok((dx, dy)) => {
                    self.queue_motion(dx, dy);
                    Ok(())
                },
                Err(fault) => Err(fault),
            },
            CapturedEvent::ScrollDelta { moved_horizontal, moved_vertical, .. } => {
                self.flush_motion();
                let (horizontal, vertical) = self.smooth_scroll_axes;
                self.smooth_scroll_axes =
                (horizontal || *moved_horizontal, vertical || *moved_vertical);
                self.queue_wire(event)
            },
            CapturedEvent::ScrollDiscrete { horizontal, vertical } => {
                self.flush_motion();
                let (smooth_x, smooth_y) = self.smooth_scroll_axes;
                self.queue_wire(
                    &CapturedEvent::ScrollDiscrete {
                        horizontal: if smooth_x {
                            0
                        } else {
                            *horizontal
                        },
                        vertical: if smooth_y {
                            0
                        } else {
                            *vertical
                        },
                    },
                )
            },
            CapturedEvent::TouchDown { id, x, y } => {
                self.flush_motion();
                let _ = self.pinch_zoom.down(*id, *x, *y);
                self.queue_touch(WireTouchEvent { phase: TouchPhase::Down, id: *id, x: *x, y: *y });
                Ok(())
            },
            CapturedEvent::TouchMotion { id, x, y, zoom_steps } => {
                self.flush_motion();
                let events = self.pinch_zoom.motion(*id, *x, *y, *zoom_steps);
                self.queue_events(&events);
                self.queue_touch(WireTouchEvent { phase: TouchPhase::Motion, id: *id, x: *x, y: *y });
                Ok(())
            },
            CapturedEvent::TouchUp { id, cancelled } => {
                self.flush_motion();
                let phase = if *cancelled {
                    TouchPhase::Cancel
                } else {
                    TouchPhase::Up
                };
                self.queue_touch(WireTouchEvent { phase, id: *id, x: 0, y: 0 });
                let events = self.pinch_zoom.up(*id);
                self.queue_events(&events);
                Ok(())
            },
            // Frames delimit an update of the compositor: send one coherent
            // move before it.
            CapturedEvent::Frame { .. } => {
                self.flush_motion();
                self.smooth_scroll_axes = (false, false);
                Ok(())
            },
            _ => {
                self.flush_motion();
                self.queue_wire(event)
            },
        }
    }

    fn queue_touch(&mut self, event: WireTouchEvent)
        requires
            old(self).wf(),
        ensures
            final(self).wf(),
            final(self)@ == old(self)@.queued(seq![CapturedInput::Touch(event)]),
    {
        self.pending.push_back(CapturedInput::Touch(event));
        assert(self.pending@ =~= old(self)@.pending + seq![CapturedInput::Touch(event)]);
    }

    fn queue_wire(&mut self, event: &CapturedEvent) -> (result: Result<(), EventFault>)
        requires
            old(self).wf(),
        ensures
            final(self).wf(),
            match wire_events(*event) {
                Ok(events) => result is Ok && final(self)@ == old(self)@.queued(as_inputs(events)),
                Err(fault) => result == Err::<(), EventFault>(fault) && final(self)@ == old(self)@,
            },
    {
        match wire_events_of(event) {
            Ok(events) => {
                self.queue_events(&events);
                Ok(())
            },
            Err(fault) => Err(fault),
        }
    }

    /// Takes in the events of one dispatch. Pointer movement is coalesced up to
    /// the next frame or the next other event; everything else stays in order.
    pub fn drain_batch(&mut self, events: &Vec<CapturedEvent>) -> (result: Result<
        (),
        BackendError,
    >)
        requires
            old(self).wf(),
            carriable(events@),
        ensures
            final(self).wf(),
            final(self)@ == old(self)@.drained(events@, 0).0,
            match old(self)@.drained(events@, 0).1 {
                None => result is Ok,
                Some(fault) => result matches Err(error) && error.says(fault.kind(), fault.text()),
            },
    {
        let mut i: usize = 0;
        while i < events.len()
            invariant
                i <= events.len(),
                self.wf(),
                carriable(events@),
                self@.drained(events@, i as int) == old(self)@.drained(events@, 0),
            decreases events.len() - i,
        {
            if let Err(fault) = self.accept(&events[i]) {
                return Err(fault.error());
            }
            i = i + 1;
        }
        // A dispatch may end without a frame; this keeps the latency bounded
        // in that case too.
        self.flush_motion();
        Ok(())
    }

    /// Takes in a signal while waiting for the barrier. A point ends the wait.
    pub fn waiting_signal(&mut self, signal: Option<CaptureSignal>) -> (result: Result<
        Option<Point>,
        BackendError,
    >)
        requires
            old(self).wf(),
        ensures
            final(self).wf(),
            match signal {
                Some(CaptureSignal::Activated { activation_id, cursor_position, .. }) => {
                    match cursor_position {
                        CursorPosition::Missing => {
                            &&& final(self)@ == old(self)@
                            &&& result matches Err(error) && error.says(
                                BackendErrorKind::InvalidData,
                                "left-edge activation omitted a finite cursor position"@,
                            )
                        },
                        CursorPosition::OutOfRange { y } => {
                            &&& final(self)@ == (AdapterView {
                                active: Some(activation_id),
                                ..old(self)@
                            })
                            &&& result matches Err(error) && error.says(
                                BackendErrorKind::InvalidData,
                                unrepresentable_text(y@),
                            )
                        },
                        CursorPosition::At { y } => {
                            &&& final(self)@ == (AdapterView {
                                active: Some(activation_id),
                                ..old(self)@
                            })
                            &&& result == Ok::<Option<Point>, BackendError>(
                                Some(Point { x: old(self)@.edge_x, y }),
                            )
                        },
                    }
                },
                Some(CaptureSignal::Deactivated { activation_id }) if expected_deactivation(
                    old(self)@.releasing,
                    activation_id,
                ) => {
                    &&& final(self)@ == (AdapterView { releasing: None, ..old(self)@ })
                    &&& result == Ok::<Option<Point>, BackendError>(None)
                },
                Some(CaptureSignal::Deactivated { .. }) | Some(CaptureSignal::Disabled) => {
                    &&& final(self)@ == old(self)@
                    &&& result matches Err(error) && error.says(
                        BackendErrorKind::BrokenPipe,
                        "InputCapture session stopped before handoff activation"@,
                    )
                },
                _ => {
                    &&& final(self)@ == old(self)@
                    &&& result == Ok::<Option<Point>, BackendError>(None)
                },
            },
    {
        match signal {
            Some(CaptureSignal::Activated { activation_id, cursor_position, .. }) => {
                match cursor_position {
                    CursorPosition::Missing => Err(
                        BackendError::new(
                            BackendErrorKind::InvalidData,
                            "left-edge activation omitted a finite cursor position",
                        ),
                    ),
                    CursorPosition::OutOfRange { y } => {
                        self.active_activation = Some(activation_id);
                        Err(unrepresentable(y.as_str()))
                    },
                    // The barrier is the session's only activation source; the
                    // configured column avoids taking portal overshoot for an
                    // interior x.
                    CursorPosition::At { y } => {
                        self.active_activation = Some(activation_id);
                        Ok(Some(Point { x: self.local_edge_x, y }))
                    },
                }
            },
            Some(CaptureSignal::Deactivated { activation_id }) => {
                if is_expected_release_deactivation(
                    self.pending_release_deactivation,
                    activation_id,
                ) {
                    self.pending_release_deactivation = None;
                    return Ok(None);
                }
                Err(stopped())
            },
            Some(CaptureSignal::Disabled) => Err(stopped()),
            _ => Ok(None),
        }
    }

    /// Input may flow only behind an activation.
    pub fn begin_remote_input(&self) -> (result: Result<(), BackendError>)
        requires
            self.wf(),
        ensures
            if self@.active is Some {
                result is Ok
            } else {
                result matches Err(error) && error.says(
                    BackendErrorKind::InvalidInput,
                    "cannot begin remote input without an InputCapture activation"@,
                )
            },
    {
        if self.active_activation.is_some() {
            return Ok(());
        }
        Err(
            BackendError::new(
                BackendErrorKind::InvalidInput,
                "cannot begin remote input without an InputCapture activation",
            ),
        )
    }

    /// Takes in a signal while input is forwarded: the end of the session is a
    /// loss then.
    pub fn active_signal(&self, signal: Option<CaptureSignal>) -> (result: Result<(), BackendError>)
        requires
            self.wf(),
        ensures
            match signal {
                Some(CaptureSignal::Deactivated { .. }) | Some(CaptureSignal::Disabled) => {
                    result matches Err(error) && error.says(
                        BackendErrorKind::BrokenPipe,
                        "InputCapture session ended while remote input was active"@,
                    )
                },
                _ => result is Ok,
            },
    {
        match signal {
            Some(CaptureSignal::Deactivated { .. }) | Some(CaptureSignal::Disabled) => Err(
                BackendError::new(
                    BackendErrorKind::BrokenPipe,
                    "InputCapture session ended while remote input was active",
                ),
            ),
            _ => Ok(()),
        }
    }

    /// The activation to release for a return. Once the portal has released
    /// it, [`Self::released`] is told.
    pub fn return_to_local(&mut self) -> (result: Result<u32, BackendError>)
        requires
            old(self).wf(),
        ensures
            final(self).wf(),
            match old(self)@.active {
                Some(activation) => result == Ok::<u32, BackendError>(activation) && final(self)@
                    == (AdapterView { active: None, motion: (0, 0), ..old(self)@ }),
                None => final(self)@ == old(self)@ && (result matches Err(error) && error.says(
                    BackendErrorKind::InvalidInput,
                    "cannot return without an InputCapture activation"@,
                )),
            },
    {
        match self.active_activation.take() {
            Some(activation) => {
                self.pending_motion = (0, 0);
                Ok(activation)
            },
            None => Err(
                BackendError::new(
                    BackendErrorKind::InvalidInput,
                    "cannot return without an InputCapture activation",
                ),
            ),
        }
    }

    /// Notes that the portal released an activation: its deactivation is to be
    /// expected.
    pub fn released(&mut self, activation: u32)
        requires
            old(self).wf(),
        ensures
            final(self).wf(),
            final(self)@ == (AdapterView { releasing: Some(activation), ..old(self)@ }),
    {
        self.pending_release_deactivation = Some(activation);
    }

    /// Gives up input. The activation to release, if there is one; capture is
    /// to be disabled in any case.
    pub fn release_local_input(&mut self) -> (activation: Option<u32>)
        requires
            old(self).wf(),
        ensures
            final(self).wf(),
            activation == old(self)@.active,
            final(self)@ == (AdapterView {
                active: None,
                releasing: None,
                motion: (0, 0),
                ..old(self)@
            }),
    {
        self.pending_motion = (0, 0);
        self.pending_release_deactivation = None;
        self.active_activation.take()
    }
}

fn stopped() -> (error: BackendError)
    ensures
        error.says(
            BackendErrorKind::BrokenPipe,
            "InputCapture session stopped before handoff activation"@,
        ),
{
    BackendError::new(
        BackendErrorKind::BrokenPipe,
        "InputCapture session stopped before handoff activation",
    )
}

/// Input never changes which activation has to be released: only signals,
/// returns and releases do.
pub proof fn law_input_leaves_activations_alone(adapter: AdapterView, events: Seq<CapturedEvent>)
    ensures
        adapter.drained(events, 0).0.active == adapter.active,
        adapter.drained(events, 0).0.releasing == adapter.releasing,
        adapter.drained(events, 0).0.edge_x == adapter.edge_x,
{
    lemma_drained_keeps(adapter, events, 0);
}

proof fn lemma_drained_keeps(adapter: AdapterView, events: Seq<CapturedEvent>, i: int)
    ensures
        adapter.drained(events, i).0.active == adapter.active,
        adapter.drained(events, i).0.releasing == adapter.releasing,
        adapter.drained(events, i).0.edge_x == adapter.edge_x,
        adapter.pending.len() <= adapter.drained(events, i).0.pending.len(),
        adapter.drained(events, i).0.pending.take(adapter.pending.len() as int)
            =~= adapter.pending,
        adapter.drained(events, i).1 is None ==> adapter.drained(events, i).0.motion == (
            0i32,
            0i32,
        ),
    decreases events.len() - i,
{
    if 0 <= i < events.len() {
        let (next, fault) = adapter.after(events[i]);
        assert(adapter.pending.len() <= next.pending.len());
        assert(next.pending.take(adapter.pending.len() as int) =~= adapter.pending);
        if fault is None {
            lemma_drained_keeps(next, events, i + 1);
            let last = next.drained(events, i + 1).0;
            assert(last.pending.take(adapter.pending.len() as int) =~= last.pending.take(
                next.pending.len() as int,
            ).take(adapter.pending.len() as int));
        }
    }
}

/// Input that waits in the queue is neither lost nor reordered by what comes
/// behind it, and no movement is held back at the end of a dispatch.
pub proof fn law_queued_input_stays_in_order(adapter: AdapterView, events: Seq<CapturedEvent>)
    ensures
        adapter.pending.is_prefix_of(adapter.drained(events, 0).0.pending),
        adapter.drained(events, 0).1 is None ==> adapter.drained(events, 0).0.motion == (
            0i32,
            0i32,
        ),
{
    lemma_drained_keeps(adapter, events, 0);
}

/// What polling the return barrier leads to.
#[derive(Debug, PartialEq, Eq)]
pub enum ExitStep {
    Nothing,
    /// Release the activation; then the outcome holds.
    Release { activation_id: u32, outcome: Result<(WireEdge, i32), BackendError> },
}

/// Watches the controlled side's outer barrier. A return request is a local
/// portal activation, not a network event.
pub struct EdgeReturnWatcher {
    edge: WireEdge,
    wire_y_offset: i32,
    restore_token: Option<RestoreToken>,
}

impl EdgeReturnWatcher {
    pub closed spec fn watched(&self) -> WireEdge {
        self.edge
    }

    pub closed spec fn offset(&self) -> i32 {
        self.wire_y_offset
    }

    pub closed spec fn token(&self) -> Option<Seq<char>> {
        match self.restore_token {
            Some(token) => Some(token@),
            None => None,
        }
    }

    /// A watcher and the session that it needs.
    pub fn start(edge: WireEdge, wire_y_offset: i32) -> (started: (
        EdgeReturnWatcher,
        CaptureSetup,
    ))
        ensures
            started.0.watched() == edge,
            started.0.offset() == wire_y_offset,
            started.0.token() is None,
            started.1@ == crate::portal_spike::fresh_setup(
                barrier_edge(edge),
                CaptureCapabilities::PointerOnly,
                crate::portal_spike::no_persistence(),
            ),
            started.1@.wf(),
    {
        (
            EdgeReturnWatcher { edge, wire_y_offset, restore_token: None },
            InputCaptureSession::start(capture_edge(edge), CaptureCapabilities::PointerOnly),
        )
    }

    pub fn start_with_persistence(
        edge: WireEdge,
        wire_y_offset: i32,
        persistence: PortalPersistence,
    ) -> (started: (EdgeReturnWatcher, CaptureSetup))
        ensures
            started.0.watched() == edge,
            started.0.offset() == wire_y_offset,
            started.0.token() is None,
            started.1@ == crate::portal_spike::fresh_setup(
                barrier_edge(edge),
                CaptureCapabilities::PointerOnly,
                persistence@,
            ),
            started.1@.wf(),
    {
        (
            EdgeReturnWatcher { edge, wire_y_offset, restore_token: None },
            InputCaptureSession::start_with_persistence(
                capture_edge(edge),
                CaptureCapabilities::PointerOnly,
                persistence,
            ),
        )
    }

    /// Keeps the replacement token of the session that was armed.
    pub fn armed(&mut self, session: &mut InputCaptureSession)
        ensures
            final(self).watched() == old(self).watched(),
            final(self).offset() == old(self).offset(),
            final(self).token() == old(session)@.token,
            final(session)@ == (crate::portal_spike::SessionView { token: None, ..old(session)@ }),
    {
        self.restore_token = session.take_restore_token();
    }

    pub fn take_restore_token(&mut self) -> (token: Option<RestoreToken>)
        ensures
            match token {
                Some(token) => old(self).token() == Some(token@),
                None => old(self).token() is None,
            },
            final(self).token() is None,
            final(self).watched() == old(self).watched(),
            final(self).offset() == old(self).offset(),
    {
        self.restore_token.take()
    }

    /// What a signal of the barrier means. The activation is released before
    /// its edge and row are handed on. A deactivation is the expected end of a
    /// return, not a reason to tear down a session that re-arms.
    pub fn poll_exit(&self, signal: Option<CaptureSignal>) -> (result: Result<
        ExitStep,
        BackendError,
    >)
        ensures
            match signal {
                Some(CaptureSignal::Activated { activation_id, cursor_position, .. }) => {
                    match cursor_position {
                        CursorPosition::Missing => result matches Err(error) && error.says(
                            BackendErrorKind::InvalidData,
                            "edge activation omitted a finite cursor position"@,
                        ),
                        CursorPosition::OutOfRange { y } => result matches Ok(
                            ExitStep::Release { activation_id: released, outcome },
                        ) && released == activation_id && (outcome matches Err(error)
                            && error.says(
                            BackendErrorKind::InvalidData,
                            unrepresentable_text(y@),
                        )),
                        CursorPosition::At { y } => result matches Ok(
                            ExitStep::Release { activation_id: released, outcome },
                        ) && released == activation_id && if i32::MIN <= y + self.offset()
                            <= i32::MAX {
                            outcome == Ok::<(WireEdge, i32), BackendError>(
                                (self.watched(), (y + self.offset()) as i32),
                            )
                        } else {
                            outcome matches Err(error) && error.says(
                                BackendErrorKind::InvalidData,
                                "return cursor y overflow"@,
                            )
                        },
                    }
                },
                Some(CaptureSignal::Disabled) => result matches Err(error) && error.says(
                    BackendErrorKind::BrokenPipe,
                    "right InputCapture session ended"@,
                ),
                _ => result == Ok::<ExitStep, BackendError>(ExitStep::Nothing),
            },
    {
        match signal {
            Some(CaptureSignal::Activated { activation_id, cursor_position, .. }) => {
                match cursor_position {
                    CursorPosition::Missing => Err(
                        BackendError::new(
                            BackendErrorKind::InvalidData,
                            "edge activation omitted a finite cursor position",
                        ),
                    ),
                    CursorPosition::OutOfRange { y } => Ok(
                        ExitStep::Release {
                            activation_id,
                            outcome: Err(unrepresentable(y.as_str())),
                        },
                    ),
                    CursorPosition::At { y } => {
                        let sum: i64 = y as i64 + self.wire_y_offset as i64;
                        let outcome = if -0x8000_0000 <= sum && sum <= 0x7fff_ffff {
                            Ok((self.edge, sum as i32))
                        } else {
                            Err(
                                BackendError::new(
                                    BackendErrorKind::InvalidData,
                                    "return cursor y overflow",
                                ),
                            )
                        };
                        Ok(ExitStep::Release { activation_id, outcome })
                    },
                }
            },
            Some(CaptureSignal::Disabled) => Err(
                BackendError::new(
                    BackendErrorKind::BrokenPipe,
                    "right InputCapture session ended",
                ),
            ),
            _ => Ok(ExitStep::Nothing),
        }
    }

    /// Starts closing the session it watches; true if the portal session has
    /// to be closed.
    pub fn close(&mut self, session: &mut InputCaptureSession) -> (call: bool)
        ensures
            *final(self) == *old(self),
            call == !old(session)@.closed,
            final(session)@ == (crate::portal_spike::SessionView {
                enabled: false,
                ..old(session)@
            }),
    {
        session.close()
    }
}

/// What a wire event asks of an injection session.
#[derive(Debug, Clone, Copy, PartialEq, Eq, Structural)]
pub enum InjectPlan {
    Nothing,
    Relative { dx: i32, dy: i32 },
    Scroll { horizontal: i32, vertical: i32 },
    ScrollDiscrete { horizontal: i32, vertical: i32 },
    Button { code: u16, state: InputState },
    Key { code: u16, state: InputState },
}

/// What a touch contact asks of an injection session.
#[derive(Debug, Clone, Copy, PartialEq, Eq, Structural)]
pub enum TouchPlan {
    Down { id: u32, x: u16, y: u16 },
    Motion { id: u32, x: u16, y: u16 },
    Up { id: u32, cancelled: bool },
}

/// A number with its sign.
pub open spec fn signed(value: int) -> Seq<char> {
    if value < 0 {
        "-"@ + crate::text::decimal((-value) as nat)
    } else {
        crate::text::decimal(value as nat)
    }
}

pub open spec fn state_text(value: i32) -> Seq<char> {
    "unsupported evdev key/button value "@ + signed(value as int)
}

pub open spec fn unsupported_text(event: WireInputEvent) -> Seq<char> {
    "unsupported seamless wire event type="@ + crate::text::decimal(event.event_type as nat)
        + " code="@ + crate::text::decimal(event.code as nat)
}

pub open spec fn state_of(value: i32) -> Option<InputState> {
    if value == 0 {
        Some(InputState::Released)
    } else if value == 1 {
        Some(InputState::Pressed)
    } else {
        None
    }
}

/// What a wire event asks for; the text says why it asks for nothing that can
/// be done.
pub open spec fn inject_plan(event: WireInputEvent) -> Result<InjectPlan, Seq<char>> {
    let value = event.value;
    if event.event_type == EV_SYN && event.code == SYN_REPORT {
        Ok(InjectPlan::Nothing)
    } else if event.event_type == EV_REL && event.code == REL_X {
        Ok(InjectPlan::Relative { dx: value, dy: 0 })
    } else if event.event_type == EV_REL && event.code == REL_Y {
        Ok(InjectPlan::Relative { dx: 0, dy: value })
    } else if event.event_type == EV_REL && event.code == REL_HWHEEL_HI_RES {
        Ok(InjectPlan::Scroll { horizontal: value, vertical: 0 })
    } else if event.event_type == EV_REL && event.code == REL_WHEEL_HI_RES {
        Ok(InjectPlan::Scroll { horizontal: 0, vertical: value })
    } else if event.event_type == EV_REL && event.code == REL_HWHEEL {
        Ok(InjectPlan::ScrollDiscrete { horizontal: value, vertical: 0 })
    } else if event.event_type == EV_REL && event.code == REL_WHEEL {
        Ok(InjectPlan::ScrollDiscrete { horizontal: 0, vertical: value })
    } else if event.event_type == EV_KEY {
        match state_of(value) {
            None => Err(state_text(value)),
            Some(state) => if event.code >= BTN_MOUSE_FIRST {
                Ok(InjectPlan::Button { code: event.code, state })
            } else {
                Ok(InjectPlan::Key { code: event.code, state })
            },
        }
    } else {
        Err(unsupported_text(event))
    }
}

/// Adapter for the consent-driven injection session. Current portals provide
/// relative injection; the requested entry point is retained for handoff
/// accounting but the pointer is not placed there.
pub struct RemoteDesktopInjector {
    entry: Option<Point>,
}

impl RemoteDesktopInjector {
    pub closed spec fn accepted(&self) -> Option<Point> {
        self.entry
    }

    /// An injector and the session that it needs.
    pub fn start() -> (started: (RemoteDesktopInjector, crate::remote_spike::RemoteSetup))
        ensures
            started.0.accepted() is None,
            started.1@ == (crate::remote_spike::RemoteSetupView {
                persistence: crate::portal_spike::no_persistence(),
                stage: crate::remote_spike::RemoteStage::Properties,
                granted: 0,
                token: None,
            }),
            started.1@.wf(),
    {
        (RemoteDesktopInjector { entry: None }, crate::remote_spike::RemoteDesktopSession::start())
    }

    pub fn start_with_persistence(persistence: PortalPersistence) -> (started: (
        RemoteDesktopInjector,
        crate::remote_spike::RemoteSetup,
    ))
        ensures
            started.0.accepted() is None,
            started.1@ == (crate::remote_spike::RemoteSetupView {
                persistence: persistence@,
                stage: crate::remote_spike::RemoteStage::Properties,
                granted: 0,
                token: None,
            }),
            started.1@.wf(),
    {
        (
            RemoteDesktopInjector { entry: None },
            crate::remote_spike::RemoteDesktopSession::start_with_persistence(persistence),
        )
    }

    /// The entry that was accepted last.
    pub fn entry(&self) -> (entry: Option<Point>)
        ensures
            entry == self.accepted(),
    {
        self.entry
    }

    pub fn prepare_entry(&mut self, entry: Point)
        ensures
            final(self).accepted() == Some(entry),
    {
        self.entry = Some(entry);
    }

    fn input_state(value: i32) -> (result: Result<InputState, BackendError>)
        ensures
            match state_of(value) {
                Some(state) => result == Ok::<InputState, BackendError>(state),
                None => result matches Err(error) && error.says(
                    BackendErrorKind::InvalidInput,
                    state_text(value),
                ),
            },
    {
        if value == 0 {
            return Ok(InputState::Released);
        }
        if value == 1 {
            return Ok(InputState::Pressed);
        }
        let mut message = String::new();
        message.push_str("unsupported evdev key/button value ");
        if value < 0 {
            message.push_str("-");
            push_decimal(&mut message, (-(value as i64)) as u64);
        } else {
            push_decimal(&mut message, value as u64);
        }
        assert(message@ =~= state_text(value));
        Err(BackendError { kind: BackendErrorKind::InvalidInput, message })
    }

    /// What a wire event asks of the session.
    pub fn inject(&self, event: WireInputEvent) -> (result: Result<InjectPlan, BackendError>)
        ensures
            match inject_plan(event) {
                Ok(plan) => result == Ok::<InjectPlan, BackendError>(plan),
                Err(text) => result matches Err(error) && error.says(
                    BackendErrorKind::InvalidInput,
                    text,
                ),
            },
    {
        let value = event.value;
        if event.event_type == EV_SYN && event.code == SYN_REPORT {
            return Ok(InjectPlan::Nothing);
        }
        if event.event_type == EV_REL {
            match event.code {
                REL_X => {
                    return Ok(InjectPlan::Relative { dx: value, dy: 0 });
                },
                REL_Y => {
                    return Ok(InjectPlan::Relative { dx: 0, dy: value });
                },
                REL_HWHEEL_HI_RES => {
                    return Ok(InjectPlan::Scroll { horizontal: value, vertical: 0 });
                },
                REL_WHEEL_HI_RES => {
                    return Ok(InjectPlan::Scroll { horizontal: 0, vertical: value });
                },
                REL_HWHEEL => {
                    return Ok(InjectPlan::ScrollDiscrete { horizontal: value, vertical: 0 });
                },
                REL_WHEEL => {
                    return Ok(InjectPlan::ScrollDiscrete { horizontal: 0, vertical: value });
                },
                _ => {},
            }
        }
        if event.event_type == EV_KEY {
            return match Self::input_state(value) {
                Ok(state) => if event.code >= BTN_MOUSE_FIRST {
                    Ok(InjectPlan::Button { code: event.code, state })
                } else {
                    Ok(InjectPlan::Key { code: event.code, state })
                },
                Err(error) => Err(error),
            };
        }
        let mut message = String::new();
        message.push_str("unsupported seamless wire event type=");
        push_decimal(&mut message, event.event_type as u64);
        message.push_str(" code=");
        push_decimal(&mut message, event.code as u64);
        assert(message@ =~= unsupported_text(event));
        Err(BackendError { kind: BackendErrorKind::InvalidInput, message })
    }

    /// What a touch contact asks of the session.
    pub fn inject_touch(&self, event: WireTouchEvent) -> (plan: TouchPlan)
        ensures
            plan == match event.phase {
                TouchPhase::Down => TouchPlan::Down { id: event.id, x: event.x, y: event.y },
                TouchPhase::Motion => TouchPlan::Motion { id: event.id, x: event.x, y: event.y },
                TouchPhase::Up => TouchPlan::Up { id: event.id, cancelled: false },
                TouchPhase::Cancel => TouchPlan::Up { id: event.id, cancelled: true },
            },
    {
        match event.phase {
            TouchPhase::Down => TouchPlan::Down { id: event.id, x: event.x, y: event.y },
            TouchPhase::Motion => TouchPlan::Motion { id: event.id, x: event.x, y: event.y },
            TouchPhase::Up => TouchPlan::Up { id: event.id, cancelled: false },
            TouchPhase::Cancel => TouchPlan::Up { id: event.id, cancelled: true },
        }
    }
}

/// Everything that the capturing side puts on the wire for keys, buttons and
/// scrolling is understood by the injecting side, with the same code and value.
pub proof fn law_captured_events_can_be_injected(event: CapturedEvent, i: int)
    requires
        wire_events(event) matches Ok(events) && 0 <= i < events.len(),
    ensures
        inject_plan((wire_events(event)->Ok_0)[i]) is Ok,
        event matches CapturedEvent::Key { evdev, pressed } && evdev < BTN_MOUSE_FIRST
            ==> inject_plan((wire_events(event)->Ok_0)[i]) == Ok::<InjectPlan, Seq<char>>(
            InjectPlan::Key {
                code: event->Key_evdev,
                state: if event->Key_pressed {
                    InputState::Pressed
                } else {
                    InputState::Released
                },
            },
        ),
        event matches CapturedEvent::Button { evdev, pressed } && evdev >= BTN_MOUSE_FIRST
            ==> inject_plan((wire_events(event)->Ok_0)[i]) == Ok::<InjectPlan, Seq<char>>(
            InjectPlan::Button {
                code: event->Button_evdev,
                state: if event->Button_pressed {
                    InputState::Pressed
                } else {
                    InputState::Released
                },
            },
        ),
{
}

/// Up to two wire events: those that have a value other than zero.
pub open spec fn where_moved(first: WireInputEvent, second: WireInputEvent) -> Seq<
    WireInputEvent,
> {
    (if first.value == 0 {
        Seq::empty()
    } else {
        seq![first]
    }) + (if second.value == 0 {
        Seq::empty()
    } else {
        seq![second]
    })
}

/// What goes on the wire for captured input: keys and buttons as one event of
/// type 1 with their code, 1 when pressed and 0 when let go; movement as events of
/// type 2 with code 0 across and 1 down; smooth scrolling with codes 12 across
/// and 11 down; wheel clicks with codes 6 across and 8 down; the end of a frame as
/// one event of zeros. An axis that did not move is left out.
pub proof fn law_captured_input_on_the_wire(
    evdev: u16,
    pressed: bool,
    a: i32,
    b: i32,
    moved_horizontal: bool,
    moved_vertical: bool,
    time_micros: u64,
)
    ensures
        ({
            let press = WireInputEvent {
                event_type: 1,
                code: evdev,
                value: if pressed {
                    1
                } else {
                    0
                },
            };
            &&& wire_events(CapturedEvent::Key { evdev, pressed }) matches Ok(events) && events
                == seq![press]
            &&& wire_events(CapturedEvent::Button { evdev, pressed }) matches Ok(events) && events
                == seq![press]
        }),
        wire_events(
            CapturedEvent::RelativePointer { dx: Rounded::Whole(a), dy: Rounded::Whole(b) },
        ) matches Ok(events) && events == where_moved(
            WireInputEvent { event_type: 2, code: 0, value: a },
            WireInputEvent { event_type: 2, code: 1, value: b },
        ),
        wire_events(
            CapturedEvent::ScrollDelta {
                horizontal: Rounded::Whole(a),
                vertical: Rounded::Whole(b),
                moved_horizontal,
                moved_vertical,
            },
        ) matches Ok(events) && events == where_moved(
            WireInputEvent { event_type: 2, code: 12, value: a },
            WireInputEvent { event_type: 2, code: 11, value: b },
        ),
        wire_events(CapturedEvent::ScrollDiscrete { horizontal: a, vertical: b }) matches Ok(events)
            && events == where_moved(
            WireInputEvent { event_type: 2, code: 6, value: a },
            WireInputEvent { event_type: 2, code: 8, value: b },
        ),
        wire_events(CapturedEvent::Frame { time_micros }) matches Ok(events) && events
            == seq![WireInputEvent { event_type: 0, code: 0, value: 0 }],
{
}

/// The movement that waits in front of anything else that is queued.
pub open spec fn waiting_motion(adapter: AdapterView) -> Seq<CapturedInput> {
    if adapter.motion.0 == 0 && adapter.motion.1 == 0 {
        Seq::empty()
    } else {
        seq![CapturedInput::Motion { dx: adapter.motion.0, dy: adapter.motion.1 }]
    }
}

/// Movements add up, each along its own axis, until something else comes; the
/// sum stops at the ends of its type. The queue stays as it is.
pub proof fn law_movements_add_up(adapter: AdapterView, dx: i32, dy: i32)
    ensures
        ({
            let relative = adapter.after(
                CapturedEvent::RelativePointer { dx: Rounded::Whole(dx), dy: Rounded::Whole(dy) },
            );
            let absolute = adapter.after(
                CapturedEvent::AbsolutePointer(AbsoluteUpdate::Moved { dx, dy }),
            );
            let x = adapter.motion.0 + dx;
            let y = adapter.motion.1 + dy;
            &&& relative.1 is None
            &&& absolute == relative
            &&& relative.0.pending == adapter.pending
            &&& relative.0.pinch == adapter.pinch
            &&& relative.0.smooth == adapter.smooth
            &&& i32::MIN <= x <= i32::MAX ==> relative.0.motion.0 == x
            &&& i32::MIN <= y <= i32::MAX ==> relative.0.motion.1 == y
            &&& x > i32::MAX ==> relative.0.motion.0 == i32::MAX
            &&& x < i32::MIN ==> relative.0.motion.0 == i32::MIN
            &&& y > i32::MAX ==> relative.0.motion.1 == i32::MAX
            &&& y < i32::MIN ==> relative.0.motion.1 == i32::MIN
        }),
        adapter.after(CapturedEvent::AbsolutePointer(AbsoluteUpdate::Origin)) == (
            adapter,
            None::<EventFault>,
        ),
        adapter.after(CapturedEvent::AbsolutePointer(AbsoluteUpdate::Invalid)).0 == adapter,
        adapter.after(CapturedEvent::AbsolutePointer(AbsoluteUpdate::Invalid)).1 == Some(
            EventFault::NotFinite,
        ),
{
}

/// A key, a button, a touch or the end of a frame is queued behind all movement
/// that came before it, as it was captured.
pub proof fn law_input_is_queued_behind_movement(
    adapter: AdapterView,
    evdev: u16,
    pressed: bool,
    id: u32,
    x: u16,
    y: u16,
    cancelled: bool,
    time_micros: u64,
)
    ensures
        ({
            let before = adapter.pending + waiting_motion(adapter);
            let press = CapturedInput::Event(
                WireInputEvent {
                    event_type: 1,
                    code: evdev,
                    value: if pressed {
                        1
                    } else {
                        0
                    },
                },
            );
            let key = adapter.after(CapturedEvent::Key { evdev, pressed });
            let button = adapter.after(CapturedEvent::Button { evdev, pressed });
            let down = adapter.after(CapturedEvent::TouchDown { id, x, y });
            let up = adapter.after(CapturedEvent::TouchUp { id, cancelled });
            let frame = adapter.after(CapturedEvent::Frame { time_micros });
            &&& key.1 is None && button.1 is None && down.1 is None && up.1 is None && frame.1 is None
            &&& key.0.pending == before.push(press)
            &&& button.0.pending == before.push(press)
            &&& down.0.pending == before.push(
                CapturedInput::Touch(WireTouchEvent { phase: TouchPhase::Down, id, x, y }),
            )
            &&& up.0.pending == before.push(
                CapturedInput::Touch(
                    WireTouchEvent {
                        phase: if cancelled {
                            TouchPhase::Cancel
                        } else {
                            TouchPhase::Up
                        },
                        id,
                        x: 0,
                        y: 0,
                    },
                ),
            ) + as_inputs(adapter.pinch.up_events(id))
            &&& frame.0.pending == before
            &&& frame.0.smooth == (false, false)
            &&& key.0.motion == (0i32, 0i32) && button.0.motion == (0i32, 0i32)
            &&& down.0.motion == (0i32, 0i32) && up.0.motion == (0i32, 0i32)
            &&& frame.0.motion == (0i32, 0i32)
            &&& down.0.pinch == adapter.pinch.after_down(id, x, y)
            &&& up.0.pinch == adapter.pinch.after_up(id)
        }),
{
    let before = adapter.pending + waiting_motion(adapter);
    let press = WireInputEvent {
        event_type: 1,
        code: evdev,
        value: if pressed {
            1
        } else {
            0
        },
    };
    law_captured_input_on_the_wire(evdev, pressed, 0, 0, false, false, time_micros);
    assert(adapter.flushed().pending =~= before);
    assert(as_inputs(seq![press]) =~= seq![CapturedInput::Event(press)]);
}

/// A finger that moves is queued where it is now, behind the zoom that its
/// movement makes.
pub proof fn law_touch_motion_is_queued(
    adapter: AdapterView,
    id: u32,
    x: u16,
    y: u16,
    zoom_steps: i32,
)
    ensures
        ({
            let moved = adapter.after(CapturedEvent::TouchMotion { id, x, y, zoom_steps });
            &&& moved.1 is None
            &&& moved.0.pending == (adapter.pending + waiting_motion(adapter) + as_inputs(
                adapter.pinch.motion_events(id, zoom_steps),
            )).push(CapturedInput::Touch(WireTouchEvent { phase: TouchPhase::Motion, id, x, y }))
            &&& moved.0.pinch == adapter.pinch.after_motion(id, x, y, zoom_steps)
            &&& moved.0.motion == (0i32, 0i32)
        }),
{
    assert(adapter.flushed().pending =~= adapter.pending + waiting_motion(adapter));
}

/// Scrolling is queued on the axes that moved. A wheel click on an axis that
/// scrolled smoothly in the same frame is not queued a second time.
pub proof fn law_scrolling_is_queued_once(
    adapter: AdapterView,
    a: i32,
    b: i32,
    moved_horizontal: bool,
    moved_vertical: bool,
)
    ensures
        ({
            let before = adapter.pending + waiting_motion(adapter);
            let smooth = adapter.after(
                CapturedEvent::ScrollDelta {
                    horizontal: Rounded::Whole(a),
                    vertical: Rounded::Whole(b),
                    moved_horizontal,
                    moved_vertical,
                },
            );
            let click = adapter.after(CapturedEvent::ScrollDiscrete { horizontal: a, vertical: b });
            &&& smooth.1 is None && click.1 is None
            &&& smooth.0.pending == before + as_inputs(
                where_moved(
                    WireInputEvent { event_type: 2, code: 12, value: a },
                    WireInputEvent { event_type: 2, code: 11, value: b },
                ),
            )
            &&& smooth.0.smooth.0 <==> adapter.smooth.0 || moved_horizontal
            &&& smooth.0.smooth.1 <==> adapter.smooth.1 || moved_vertical
            &&& click.0.pending == before + as_inputs(
                where_moved(
                    WireInputEvent {
                        event_type: 2,
                        code: 6,
                        value: if adapter.smooth.0 {
                            0
                        } else {
                            a
                        },
                    },
                    WireInputEvent {
                        event_type: 2,
                        code: 8,
                        value: if adapter.smooth.1 {
                            0
                        } else {
                            b
                        },
                    },
                ),
            )
            &&& click.0.smooth == adapter.smooth
        }),
{
    let h = if adapter.smooth.0 {
        0
    } else {
        a
    };
    let v = if adapter.smooth.1 {
        0
    } else {
        b
    };
    law_captured_input_on_the_wire(0, false, a, b, moved_horizontal, moved_vertical, 0);
    law_captured_input_on_the_wire(0, false, h, v, moved_horizontal, moved_vertical, 0);
    assert(adapter.flushed().pending =~= adapter.pending + waiting_motion(adapter));
}

/// Wire events are queued one for one.
pub proof fn law_wire_events_are_queued_as_they_are(events: Seq<WireInputEvent>, i: int)
    requires
        0 <= i < events.len(),
    ensures
        as_inputs(events).len() == events.len(),
        as_inputs(events)[i] == CapturedInput::Event(events[i]),
{
}

/// A number that does not fit stops its event, the first of two being named, and
/// nothing of the event is queued.
pub proof fn law_what_does_not_fit_is_not_queued(
    adapter: AdapterView,
    text: String,
    other: Rounded,
    whole: i32,
)
    ensures
        adapter.after(
            CapturedEvent::RelativePointer { dx: Rounded::Beyond(text), dy: other },
        ) == (adapter, Some(EventFault::Unrepresentable(text))),
        adapter.after(
            CapturedEvent::RelativePointer { dx: Rounded::Whole(whole), dy: Rounded::Beyond(text) },
        ) == (adapter, Some(EventFault::Unrepresentable(text))),
{
}

/// What wire events ask of the session: movement, smooth scrolling and wheel
/// clicks along the axis of their code by the amount they carry, keys and buttons
/// (from code 0x110 on) to be pressed for 1 and let go for 0.
pub proof fn law_wire_events_ask_for_what_they_carry(code: u16, value: i32)
    ensures
        inject_plan(WireInputEvent { event_type: 0, code: 0, value }) == Ok::<
            InjectPlan,
            Seq<char>,
        >(InjectPlan::Nothing),
        inject_plan(WireInputEvent { event_type: 2, code: 0, value }) == Ok::<
            InjectPlan,
            Seq<char>,
        >(InjectPlan::Relative { dx: value, dy: 0 }),
        inject_plan(WireInputEvent { event_type: 2, code: 1, value }) == Ok::<
            InjectPlan,
            Seq<char>,
        >(InjectPlan::Relative { dx: 0, dy: value }),
        inject_plan(WireInputEvent { event_type: 2, code: 12, value }) == Ok::<
            InjectPlan,
            Seq<char>,
        >(InjectPlan::Scroll { horizontal: value, vertical: 0 }),
        inject_plan(WireInputEvent { event_type: 2, code: 11, value }) == Ok::<
            InjectPlan,
            Seq<char>,
        >(InjectPlan::Scroll { horizontal: 0, vertical: value }),
        inject_plan(WireInputEvent { event_type: 2, code: 6, value }) == Ok::<
            InjectPlan,
            Seq<char>,
        >(InjectPlan::ScrollDiscrete { horizontal: value, vertical: 0 }),
        inject_plan(WireInputEvent { event_type: 2, code: 8, value }) == Ok::<
            InjectPlan,
            Seq<char>,
        >(InjectPlan::ScrollDiscrete { horizontal: 0, vertical: value }),
        value == 0 || value == 1 ==> inject_plan(
            WireInputEvent { event_type: 1, code, value },
        ) == Ok::<InjectPlan, Seq<char>>(
            if code < 0x110 {
                InjectPlan::Key {
                    code,
                    state: if value == 1 {
                        InputState::Pressed
                    } else {
                        InputState::Released
                    },
                }
            } else {
                InjectPlan::Button {
                    code,
                    state: if value == 1 {
                        InputState::Pressed
                    } else {
                        InputState::Released
                    },
                }
            },
        ),
        value < 0 || value > 1 ==> inject_plan(
            WireInputEvent { event_type: 1, code, value },
        ) is Err,
        code > 12 || code == 7 || 2 <= code <= 5 || 9 <= code <= 10 ==> inject_plan(
            WireInputEvent { event_type: 2, code, value },
        ) is Err,
        code > 0 ==> inject_plan(WireInputEvent { event_type: 0, code, value }) is Err,
{
}

/// No other type of event asks for anything.
pub proof fn law_other_types_ask_for_nothing(event: WireInputEvent)
    requires
        event.event_type > 2,
    ensures
        inject_plan(event) is Err,
{
}

/// The end of a release is acknowledged by a deactivation that names the
/// released activation, or names none; without a release none is expected.
pub proof fn law_only_the_release_is_acknowledged(released: u32, named: u32, observed: Option<u32>)
    ensures
        expected_deactivation(Some(released), Some(released)),
        expected_deactivation(Some(released), None),
        named != released ==> !expected_deactivation(Some(released), Some(named)),
        !expected_deactivation(None, observed),
        barrier_edge(WireEdge::Left) == CaptureEdge::Left,
        barrier_edge(WireEdge::Right) == CaptureEdge::Right,
{
}

/// A new adapter waits at its edge: nothing is active or being released, no
/// movement is held back, nothing is queued and no finger is followed.
pub proof fn law_new_adapters_are_idle(edge_x: i32)
    ensures
        fresh_adapter(edge_x).edge_x == edge_x,
        fresh_adapter(edge_x).active is None,
        fresh_adapter(edge_x).releasing is None,
        fresh_adapter(edge_x).motion == (0i32, 0i32),
        !fresh_adapter(edge_x).smooth.0 && !fresh_adapter(edge_x).smooth.1,
        fresh_adapter(edge_x).pending.len() == 0,
        waiting_motion(fresh_adapter(edge_x)).len() == 0,
{
}

/// What cannot be carried or done is told with its numbers, and an event that
/// should have been tracked is the caller's fault, not the data's.
pub proof fn law_faults_of_events_are_told(event: WireInputEvent, value: i32, text: String)
    ensures
        value >= 0 ==> state_text(value) == "unsupported evdev key/button value "@
            + crate::text::decimal(value as nat),
        value < 0 ==> state_text(value) == "unsupported evdev key/button value "@ + ("-"@
            + crate::text::decimal((-value) as nat)),
        unsupported_text(event) == "unsupported seamless wire event type="@ + crate::text::decimal(
            event.event_type as nat,
        ) + " code="@ + crate::text::decimal(event.code as nat),
        EventFault::Unrepresentable(text).text() == "portal coordinate "@ + text@
            + " cannot be represented as i32"@,
        EventFault::Unrepresentable(text).kind() == BackendErrorKind::InvalidData,
        EventFault::NotFinite.text() == "absolute pointer coordinates must be finite"@,
        EventFault::NotFinite.kind() == BackendErrorKind::InvalidData,
        EventFault::Untracked.text()
            == "absolute pointer events must pass through the motion tracker"@,
        EventFault::Untracked.kind() == BackendErrorKind::InvalidInput,
{
}

} // verus!
