//! What the receiving end of an emulated-input connection announces and
//! delivers.
//!
//! The connection itself is driven by the application. This module says what
//! each event means: which metadata it adds, which input it carries and when
//! the opening exchange is over. Event payloads that are not whole numbers are
//! rounded before they come here.
use vstd::prelude::*;

use crate::backend::{BackendError, BackendErrorKind};
use crate::text::push_decimal;

verus! {

pub const EI_EVENT_CONNECT: i32 = 1;

pub const EI_EVENT_DISCONNECT: i32 = 2;

pub const EI_EVENT_SEAT_ADDED: i32 = 3;

pub const EI_EVENT_DEVICE_ADDED: i32 = 5;

pub const EI_EVENT_FRAME: i32 = 100;

pub const EI_EVENT_DEVICE_START_EMULATING: i32 = 200;

pub const EI_EVENT_DEVICE_STOP_EMULATING: i32 = 201;

pub const EI_EVENT_POINTER_MOTION: i32 = 300;

pub const EI_EVENT_POINTER_MOTION_ABSOLUTE: i32 = 400;

pub const EI_EVENT_BUTTON_BUTTON: i32 = 500;

pub const EI_EVENT_SCROLL_DELTA: i32 = 600;

pub const EI_EVENT_SCROLL_STOP: i32 = 601;

pub const EI_EVENT_SCROLL_CANCEL: i32 = 602;

pub const EI_EVENT_SCROLL_DISCRETE: i32 = 603;

pub const EI_EVENT_KEYBOARD_KEY: i32 = 700;

pub const EI_EVENT_TOUCH_DOWN: i32 = 800;

pub const EI_EVENT_TOUCH_UP: i32 = 801;

pub const EI_EVENT_TOUCH_MOTION: i32 = 802;

pub const CAP_POINTER: u32 = 1;

pub const CAP_POINTER_ABSOLUTE: u32 = 2;

pub const CAP_KEYBOARD: u32 = 4;

pub const CAP_TOUCH: u32 = 8;

pub const CAP_SCROLL: u32 = 16;

pub const CAP_BUTTON: u32 = 32;

pub const CAP_TEXT: u32 = 64;

#[derive(Debug, Clone, PartialEq, Eq)]
pub struct SeatMetadata {
    pub name: String,
    pub capabilities: Vec<&'static str>,
}

#[derive(Debug, Clone, PartialEq, Eq)]
pub struct RegionMetadata {
    pub x: u32,
    pub y: u32,
    pub width: u32,
    pub height: u32,
}

#[derive(Debug, Clone, PartialEq, Eq)]
pub struct DeviceMetadata {
    pub name: String,
    pub device_type: &'static str,
    pub capabilities: Vec<&'static str>,
    pub regions: Vec<RegionMetadata>,
}

#[derive(Debug, Clone, PartialEq, Eq)]
pub struct ReceiverMetadata {
    pub connected: bool,
    pub disconnected: bool,
    pub seats: Vec<SeatMetadata>,
    pub devices: Vec<DeviceMetadata>,
    pub event_types: Vec<String>,
}

/// What is known of the other end.
pub struct MetadataView {
    pub connected: bool,
    pub disconnected: bool,
    pub seats: Seq<SeatMetadata>,
    pub devices: Seq<DeviceMetadata>,
    pub event_types: Seq<Seq<char>>,
}

impl MetadataView {
    pub open spec fn unknown() -> MetadataView {
        MetadataView {
            connected: false,
            disconnected: false,
            seats: Seq::empty(),
            devices: Seq::empty(),
            event_types: Seq::empty(),
        }
    }
}

impl View for ReceiverMetadata {
    type V = MetadataView;

    open spec fn view(&self) -> MetadataView {
        MetadataView {
            connected: self.connected,
            disconnected: self.disconnected,
            seats: self.seats@,
            devices: self.devices@,
            event_types: self.event_types@.map_values(|name: String| name@),
        }
    }
}

impl Default for ReceiverMetadata {
    fn default() -> (metadata: Self)
        ensures
            metadata@ == MetadataView::unknown(),
    {
        let metadata = ReceiverMetadata {
            connected: false,
            disconnected: false,
            seats: Vec::new(),
            devices: Vec::new(),
            event_types: Vec::new(),
        };
        assert(metadata@.event_types =~= Seq::<Seq<char>>::empty());
        metadata
    }
}

/// A coordinate or delta.
#[derive(Debug, Clone, PartialEq, Eq)]
pub enum Rounded {
    /// Rounded to the nearest whole number.
    Whole(i32),
    /// The text of one that is not finite or does not fit.
    Beyond(String),
}

/// What an absolute pointer position did to the position tracker.
#[derive(Debug, Clone, Copy, PartialEq, Eq, Structural)]
pub enum AbsoluteUpdate {
    /// It became the origin: nothing moved.
    Origin,
    Moved { dx: i32, dy: i32 },
    /// It was not finite.
    Invalid,
}

/// One input event.
#[derive(Debug, Clone, PartialEq, Eq)]
pub enum CapturedEvent {
    StartEmulating { sequence: u32 },
    StopEmulating,
    Frame { time_micros: u64 },
    RelativePointer { dx: Rounded, dy: Rounded },
    /// Absolute coordinates are converted to bounded relative deltas; they are
    /// never placed on the wire.
    AbsolutePointer(AbsoluteUpdate),
    Button { evdev: u16, pressed: bool },
    Key { evdev: u16, pressed: bool },
    /// A smooth scroll. `moved_*` tells whether the axis moved at all, be it by
    /// less than a whole unit.
    ScrollDelta {
        horizontal: Rounded,
        vertical: Rounded,
        moved_horizontal: bool,
        moved_vertical: bool,
    },
    ScrollDiscrete { horizontal: i32, vertical: i32 },
    ScrollStop { horizontal: bool, vertical: bool },
    ScrollCancel { horizontal: bool, vertical: bool },
    /// A physical touch contact normalized to its source region.
    TouchDown { id: u32, x: u16, y: u16 },
    /// `zoom_steps` is the number of whole zoom steps by which the distance
    /// between two contacts has changed.
    TouchMotion { id: u32, x: u16, y: u16, zoom_steps: i32 },
    TouchUp { id: u32, cancelled: bool },
}

/// What one dispatch of the connection gave.
#[derive(Debug, Clone, PartialEq, Eq)]
pub struct DispatchBatch {
    pub event_types: Vec<String>,
    pub input_events: Vec<CapturedEvent>,
}

pub open spec fn named<'a>(has: bool, name: &'a str) -> Seq<&'a str> {
    if has {
        seq![name]
    } else {
        Seq::empty()
    }
}

/// The names of the capabilities in a set of bits, in a fixed order.
pub open spec fn capability_names(available: u32) -> Seq<&'static str> {
    named(available & CAP_POINTER != 0, "pointer") + named(
        available & CAP_POINTER_ABSOLUTE != 0,
        "pointer-absolute",
    ) + named(available & CAP_KEYBOARD != 0, "keyboard") + named(
        available & CAP_TOUCH != 0,
        "touch",
    ) + named(available & CAP_SCROLL != 0, "scroll") + named(available & CAP_BUTTON != 0, "button")
        + named(available & CAP_TEXT != 0, "text")
}

fn push_named(names: &mut Vec<&'static str>, has: bool, name: &'static str)
    ensures
        final(names)@ == old(names)@ + named(has, name),
{
    if has {
        names.push(name);
    }
    assert(names@ =~= old(names)@ + named(has, name));
}

pub fn capabilities(available: u32) -> (names: Vec<&'static str>)
    ensures
        names@ == capability_names(available),
{
    let mut names: Vec<&'static str> = Vec::new();
    push_named(&mut names, available & CAP_POINTER != 0, "pointer");
    push_named(&mut names, available & CAP_POINTER_ABSOLUTE != 0, "pointer-absolute");
    push_named(&mut names, available & CAP_KEYBOARD != 0, "keyboard");
    push_named(&mut names, available & CAP_TOUCH != 0, "touch");
    push_named(&mut names, available & CAP_SCROLL != 0, "scroll");
    push_named(&mut names, available & CAP_BUTTON != 0, "button");
    push_named(&mut names, available & CAP_TEXT != 0, "text");
    assert(names@ =~= capability_names(available));
    names
}

/// The name of a device type.
pub fn device_type_name(device_type: i32) -> (name: &'static str)
    ensures
        name@ == if device_type == 1 {
            "virtual"@
        } else if device_type == 2 {
            "physical"@
        } else {
            "unknown"@
        },
{
    match device_type {
        1 => "virtual",
        2 => "physical",
        _ => "unknown",
    }
}

pub open spec fn checked_evdev_text(value: u32, kind: Seq<char>) -> Seq<char> {
    "EIS "@ + kind + " code "@ + crate::text::decimal(value as nat)
        + " exceeds the supported u16 range"@
}

/// A key or button code as the wire carries it.
pub fn checked_evdev(value: u32, kind: &str) -> (result: Result<u16, BackendError>)
    ensures
        match result {
            Ok(code) => code == value,
            Err(error) => value > u16::MAX && error.says(
                BackendErrorKind::InvalidData,
                checked_evdev_text(value, kind@),
            ),
        },
{
    if value <= 0xffff {
        return Ok(value as u16);
    }
    let mut message = String::new();
    message.push_str("EIS ");
    message.push_str(kind);
    message.push_str(" code ");
    push_decimal(&mut message, value as u64);
    message.push_str(" exceeds the supported u16 range");
    assert(message@ =~= checked_evdev_text(value, kind@));
    Err(BackendError { kind: BackendErrorKind::InvalidData, message })
}

/// The kinds of event that carry input.
#[derive(Debug, Clone, Copy, PartialEq, Eq, Structural)]
pub enum InputKind {
    StartEmulating,
    StopEmulating,
    Frame,
    RelativePointer,
    AbsolutePointer,
    Button,
    Key,
    ScrollDelta,
    ScrollDiscrete,
    ScrollStop,
    ScrollCancel,
    TouchDown,
    TouchMotion,
    TouchUp,
}

pub open spec fn input_kind_of(event_type: i32) -> Option<InputKind> {
    if event_type == EI_EVENT_DEVICE_START_EMULATING {
        Some(InputKind::StartEmulating)
    } else if event_type == EI_EVENT_DEVICE_STOP_EMULATING {
        Some(InputKind::StopEmulating)
    } else if event_type == EI_EVENT_FRAME {
        Some(InputKind::Frame)
    } else if event_type == EI_EVENT_POINTER_MOTION {
        Some(InputKind::RelativePointer)
    } else if event_type == EI_EVENT_POINTER_MOTION_ABSOLUTE {
        Some(InputKind::AbsolutePointer)
    } else if event_type == EI_EVENT_BUTTON_BUTTON {
        Some(InputKind::Button)
    } else if event_type == EI_EVENT_KEYBOARD_KEY {
        Some(InputKind::Key)
    } else if event_type == EI_EVENT_SCROLL_DELTA {
        Some(InputKind::ScrollDelta)
    } else if event_type == EI_EVENT_SCROLL_DISCRETE {
        Some(InputKind::ScrollDiscrete)
    } else if event_type == EI_EVENT_SCROLL_STOP {
        Some(InputKind::ScrollStop)
    } else if event_type == EI_EVENT_SCROLL_CANCEL {
        Some(InputKind::ScrollCancel)
    } else if event_type == EI_EVENT_TOUCH_DOWN {
        Some(InputKind::TouchDown)
    } else if event_type == EI_EVENT_TOUCH_MOTION {
        Some(InputKind::TouchMotion)
    } else if event_type == EI_EVENT_TOUCH_UP {
        Some(InputKind::TouchUp)
    } else {
        None
    }
}

/// Which input an event carries, by its type.
pub fn input_kind(event_type: i32) -> (kind: Option<InputKind>)
    ensures
        kind == input_kind_of(event_type),
{
    match event_type {
        EI_EVENT_DEVICE_START_EMULATING => Some(InputKind::StartEmulating),
        EI_EVENT_DEVICE_STOP_EMULATING => Some(InputKind::StopEmulating),
        EI_EVENT_FRAME => Some(InputKind::Frame),
        EI_EVENT_POINTER_MOTION => Some(InputKind::RelativePointer),
        EI_EVENT_POINTER_MOTION_ABSOLUTE => Some(InputKind::AbsolutePointer),
        EI_EVENT_BUTTON_BUTTON => Some(InputKind::Button),
        EI_EVENT_KEYBOARD_KEY => Some(InputKind::Key),
        EI_EVENT_SCROLL_DELTA => Some(InputKind::ScrollDelta),
        EI_EVENT_SCROLL_DISCRETE => Some(InputKind::ScrollDiscrete),
        EI_EVENT_SCROLL_STOP => Some(InputKind::ScrollStop),
        EI_EVENT_SCROLL_CANCEL => Some(InputKind::ScrollCancel),
        EI_EVENT_TOUCH_DOWN => Some(InputKind::TouchDown),
        EI_EVENT_TOUCH_MOTION => Some(InputKind::TouchMotion),
        EI_EVENT_TOUCH_UP => Some(InputKind::TouchUp),
        _ => None,
    }
}

/// The fields of an event as the connection reports them. Only those that
/// belong to the event's type are read.
#[derive(Debug, Clone, PartialEq, Eq)]
pub struct EventFields {
    pub sequence: u32,
    pub time_micros: u64,
    /// Key or button code.
    pub code: u32,
    pub pressed: bool,
    /// Rounded deltas, for pointer motion and smooth scrolling.
    pub dx: Rounded,
    pub dy: Rounded,
    /// Whether the axes moved at all.
    pub moved_x: bool,
    pub moved_y: bool,
    pub absolute: AbsoluteUpdate,
    pub discrete_x: i32,
    pub discrete_y: i32,
    pub stop_x: bool,
    pub stop_y: bool,
    pub contact: u32,
    pub contact_x: u16,
    pub contact_y: u16,
    pub zoom_steps: i32,
    pub cancelled: bool,
}

/// The input in an event, if its type carries any; `None` inside if a code
/// does not fit the wire.
pub open spec fn decoded_input(event_type: i32, fields: EventFields) -> Option<
    Option<CapturedEvent>,
> {
    match input_kind_of(event_type) {
        None => None,
        Some(InputKind::StartEmulating) => Some(
            Some(CapturedEvent::StartEmulating { sequence: fields.sequence }),
        ),
        Some(InputKind::StopEmulating) => Some(Some(CapturedEvent::StopEmulating)),
        Some(InputKind::Frame) => Some(
            Some(CapturedEvent::Frame { time_micros: fields.time_micros }),
        ),
        Some(InputKind::RelativePointer) => Some(
            Some(CapturedEvent::RelativePointer { dx: fields.dx, dy: fields.dy }),
        ),
        Some(InputKind::AbsolutePointer) => Some(
            Some(CapturedEvent::AbsolutePointer(fields.absolute)),
        ),
        Some(InputKind::Button) => if fields.code <= u16::MAX {
            Some(Some(CapturedEvent::Button { evdev: fields.code as u16, pressed: fields.pressed }))
        } else {
            Some(None)
        },
        Some(InputKind::Key) => if fields.code <= u16::MAX {
            Some(Some(CapturedEvent::Key { evdev: fields.code as u16, pressed: fields.pressed }))
        } else {
            Some(None)
        },
        Some(InputKind::ScrollDelta) => Some(
            Some(
                CapturedEvent::ScrollDelta {
                    horizontal: fields.dx,
                    vertical: fields.dy,
                    moved_horizontal: fields.moved_x,
                    moved_vertical: fields.moved_y,
                },
            ),
        ),
        Some(InputKind::ScrollDiscrete) => Some(
            Some(
                CapturedEvent::ScrollDiscrete {
                    horizontal: fields.discrete_x,
                    vertical: fields.discrete_y,
                },
            ),
        ),
        Some(InputKind::ScrollStop) => Some(
            Some(CapturedEvent::ScrollStop { horizontal: fields.stop_x, vertical: fields.stop_y }),
        ),
        Some(InputKind::ScrollCancel) => Some(
            Some(
                CapturedEvent::ScrollCancel { horizontal: fields.stop_x, vertical: fields.stop_y },
            ),
        ),
        Some(InputKind::TouchDown) => Some(
            Some(
                CapturedEvent::TouchDown {
                    id: fields.contact,
                    x: fields.contact_x,
                    y: fields.contact_y,
                },
            ),
        ),
        Some(InputKind::TouchMotion) => Some(
            Some(
                CapturedEvent::TouchMotion {
                    id: fields.contact,
                    x: fields.contact_x,
                    y: fields.contact_y,
                    zoom_steps: fields.zoom_steps,
                },
            ),
        ),
        Some(InputKind::TouchUp) => Some(
            Some(CapturedEvent::TouchUp { id: fields.contact, cancelled: fields.cancelled }),
        ),
    }
}

/// The input that an event carries. Codes beyond the wire's range are refused.
pub fn decode_input_event(event_type: i32, fields: EventFields) -> (result: Result<
    Option<CapturedEvent>,
    BackendError,
>)
    ensures
        match result {
            Ok(None) => decoded_input(event_type, fields) is None,
            Ok(Some(event)) => decoded_input(event_type, fields) == Some(Some(event)),
            Err(error) => {
                &&& decoded_input(event_type, fields) == Some(None::<CapturedEvent>)
                &&& error.says(
                    BackendErrorKind::InvalidData,
                    checked_evdev_text(
                        fields.code,
                        if event_type == EI_EVENT_BUTTON_BUTTON {
                            "button"@
                        } else {
                            "key"@
                        },
                    ),
                )
            },
        },
{
    let kind = match input_kind(event_type) {
        Some(kind) => kind,
        None => {
            return Ok(None);
        },
    };
    let event = match kind {
        InputKind::StartEmulating => CapturedEvent::StartEmulating { sequence: fields.sequence },
        InputKind::StopEmulating => CapturedEvent::StopEmulating,
        InputKind::Frame => CapturedEvent::Frame { time_micros: fields.time_micros },
        InputKind::RelativePointer => CapturedEvent::RelativePointer {
            dx: fields.dx,
            dy: fields.dy,
        },
        InputKind::AbsolutePointer => CapturedEvent::AbsolutePointer(fields.absolute),
        InputKind::Button => match checked_evdev(fields.code, "button") {
            Ok(evdev) => CapturedEvent::Button { evdev, pressed: fields.pressed },
            Err(error) => {
                return Err(error);
            },
        },
        InputKind::Key => match checked_evdev(fields.code, "key") {
            Ok(evdev) => CapturedEvent::Key { evdev, pressed: fields.pressed },
            Err(error) => {
                return Err(error);
            },
        },
        InputKind::ScrollDelta => CapturedEvent::ScrollDelta {
            horizontal: fields.dx,
            vertical: fields.dy,
            moved_horizontal: fields.moved_x,
            moved_vertical: fields.moved_y,
        },
        InputKind::ScrollDiscrete => CapturedEvent::ScrollDiscrete {
            horizontal: fields.discrete_x,
            vertical: fields.discrete_y,
        },
        InputKind::ScrollStop => CapturedEvent::ScrollStop {
            horizontal: fields.stop_x,
            vertical: fields.stop_y,
        },
        InputKind::ScrollCancel => CapturedEvent::ScrollCancel {
            horizontal: fields.stop_x,
            vertical: fields.stop_y,
        },
        InputKind::TouchDown => CapturedEvent::TouchDown {
            id: fields.contact,
            x: fields.contact_x,
            y: fields.contact_y,
        },
        InputKind::TouchMotion => CapturedEvent::TouchMotion {
            id: fields.contact,
            x: fields.contact_x,
            y: fields.contact_y,
            zoom_steps: fields.zoom_steps,
        },
        InputKind::TouchUp => CapturedEvent::TouchUp {
            id: fields.contact,
            cancelled: fields.cancelled,
        },
    };
    Ok(Some(event))
}

/// Milliseconds to hand to `poll` for a wait of `nanos` nanoseconds: a wait
/// below a millisecond is rounded up, one beyond the range is cut.
pub open spec fn poll_ms(nanos: u128) -> int {
    let millis = nanos as int / 1_000_000;
    if nanos == 0 {
        0
    } else if millis < 1 {
        1
    } else if millis > i32::MAX {
        i32::MAX as int
    } else {
        millis
    }
}

pub fn duration_to_poll_ms(nanos: u128) -> (timeout: i32)
    ensures
        timeout == poll_ms(nanos),
{
    if nanos == 0 {
        return 0;
    }
    let millis: u128 = nanos / 1_000_000;
    if millis < 1 {
        1
    } else if millis > 0x7fff_ffff {
        0x7fff_ffff
    } else {
        millis as i32
    }
}

/// An event that tells about the connection, with what it names.
pub enum MetadataEvent {
    Connect,
    Disconnect,
    /// A seat, unless the event named none.
    SeatAdded(Option<SeatMetadata>),
    DeviceAdded(Option<DeviceMetadata>),
    StartEmulating { sequence: u32 },
    Other,
}

pub open spec fn sequence_note(sequence: u32) -> Seq<char> {
    "(sequence="@ + crate::text::decimal(sequence as nat) + ")"@
}

/// What is known after an event.
pub open spec fn after_metadata(
    known: MetadataView,
    event: MetadataEvent,
    record_event_names: bool,
) -> MetadataView {
    match event {
        MetadataEvent::Connect => MetadataView { connected: true, ..known },
        MetadataEvent::Disconnect => MetadataView { disconnected: true, ..known },
        MetadataEvent::SeatAdded(Some(seat)) => MetadataView {
            seats: known.seats.push(seat),
            ..known
        },
        MetadataEvent::DeviceAdded(Some(device)) => MetadataView {
            devices: known.devices.push(device),
            ..known
        },
        MetadataEvent::StartEmulating { sequence } => if record_event_names
            && known.event_types.len() > 0 {
            MetadataView {
                event_types: known.event_types.drop_last().push(
                    known.event_types.last() + sequence_note(sequence),
                ),
                ..known
            }
        } else {
            known
        },
        _ => known,
    }
}

/// The capabilities that a receiver binds on every seat.
pub fn receiver_capabilities() -> (bound: Vec<u32>)
    ensures
        bound@ == seq![
            CAP_POINTER,
            CAP_KEYBOARD,
            CAP_POINTER_ABSOLUTE,
            CAP_TOUCH,
            CAP_BUTTON,
            CAP_SCROLL,
            CAP_TEXT,
        ],
{
    let bound = vec![
        CAP_POINTER,
        CAP_KEYBOARD,
        CAP_POINTER_ABSOLUTE,
        CAP_TOUCH,
        CAP_BUTTON,
        CAP_SCROLL,
        CAP_TEXT,
    ];
    assert(bound@ =~= seq![
        CAP_POINTER,
        CAP_KEYBOARD,
        CAP_POINTER_ABSOLUTE,
        CAP_TOUCH,
        CAP_BUTTON,
        CAP_SCROLL,
        CAP_TEXT,
    ]);
    bound
}

/// How far the opening exchange has come, and the time that is left for it;
/// `None` once its deadline is over.
#[derive(Debug, Clone, Copy, PartialEq, Eq, Structural)]
pub enum HandshakeWait {
    Connecting { remaining_nanos: Option<u128> },
    /// Binding is asynchronous, so the server gets a short, bounded
    /// opportunity to announce its devices after it has connected.
    Announcing { remaining_nanos: Option<u128> },
}

#[derive(Debug, Clone, Copy, PartialEq, Eq, Structural)]
pub enum HandshakeStep {
    /// Wait for events, no longer than this.
    Dispatch { nanos: u128 },
    /// Go on to wait for devices.
    Announce,
    /// The exchange is over.
    Ready,
}

pub const CONNECT_SLICE_NANOS: u128 = 250_000_000;

pub const ANNOUNCE_SLICE_NANOS: u128 = 100_000_000;

/// Time that devices have for being announced.
pub const ANNOUNCE_NANOS: u128 = 750_000_000;

pub open spec fn slice(remaining: u128, most: u128) -> u128 {
    if remaining < most {
        remaining
    } else {
        most
    }
}

/// The receiving end without its connection.
pub struct Receiver {
    metadata: ReceiverMetadata,
}

impl View for Receiver {
    type V = MetadataView;

    closed spec fn view(&self) -> MetadataView {
        self.metadata@
    }
}

impl Receiver {
    pub fn new() -> (receiver: Receiver)
        ensures
            receiver@ == MetadataView::unknown(),
    {
        Receiver { metadata: ReceiverMetadata::default() }
    }

    pub fn metadata(&self) -> (metadata: &ReceiverMetadata)
        ensures
            metadata@ == self@,
    {
        &self.metadata
    }

    /// What to do next in the opening exchange: metadata is complete once the
    /// server has connected and a device was announced, or there was none in
    /// time.
    pub fn handshake(&self, wait: HandshakeWait) -> (result: Result<HandshakeStep, BackendError>)
        ensures
            match wait {
                HandshakeWait::Connecting { remaining_nanos } => match result {
                    Ok(HandshakeStep::Dispatch { nanos }) => !self@.connected && !self@.disconnected
                        && remaining_nanos is Some && nanos == slice(
                        remaining_nanos->0,
                        CONNECT_SLICE_NANOS,
                    ),
                    Ok(step) => step == HandshakeStep::Announce && self@.connected,
                    Err(error) => !self@.connected && (self@.disconnected || remaining_nanos is None)
                        && error.says(
                        BackendErrorKind::TimedOut,
                        "EIS receiver did not complete its Connect handshake"@,
                    ),
                },
                HandshakeWait::Announcing { remaining_nanos } => match result {
                    Ok(HandshakeStep::Dispatch { nanos }) => self@.devices.len() == 0
                        && !self@.disconnected && remaining_nanos is Some && nanos == slice(
                        remaining_nanos->0,
                        ANNOUNCE_SLICE_NANOS,
                    ),
                    Ok(step) => step == HandshakeStep::Ready && (self@.devices.len() > 0
                        || self@.disconnected || remaining_nanos is None),
                    Err(_) => false,
                },
            },
    {
        match wait {
            HandshakeWait::Connecting { remaining_nanos } => {
                if self.metadata.connected {
                    return Ok(HandshakeStep::Announce);
                }
                match remaining_nanos {
                    Some(remaining) if !self.metadata.disconnected => Ok(
                        HandshakeStep::Dispatch {
                            nanos: if remaining < CONNECT_SLICE_NANOS {
                                remaining
                            } else {
                                CONNECT_SLICE_NANOS
                            },
                        },
                    ),
                    _ => Err(
                        BackendError::new(
                            BackendErrorKind::TimedOut,
                            "EIS receiver did not complete its Connect handshake",
                        ),
                    ),
                }
            },
            HandshakeWait::Announcing { remaining_nanos } => match remaining_nanos {
                Some(remaining) if self.metadata.devices.len() == 0 && !self.metadata.disconnected =>
                Ok(
                    HandshakeStep::Dispatch {
                        nanos: if remaining < ANNOUNCE_SLICE_NANOS {
                            remaining
                        } else {
                            ANNOUNCE_SLICE_NANOS
                        },
                    },
                ),
                _ => Ok(HandshakeStep::Ready),
            },
        }
    }

    /// Notes the name of an event.
    pub fn record_event_name(&mut self, name: String)
        ensures
            final(self)@ == (MetadataView {
                event_types: old(self)@.event_types.push(name@),
                ..old(self)@
            }),
    {
        self.metadata.event_types.push(name);
        assert(self@.event_types =~= old(self)@.event_types.push(name@));
    }

    /// Takes in an event about the connection. True if the seat it names is to
    /// be bound to the receiver's capabilities.
    pub fn process_metadata_event(&mut self, event: MetadataEvent, record_event_names: bool) -> (bind:
        bool)
        ensures
            final(self)@ == after_metadata(old(self)@, event, record_event_names),
            bind == (event matches MetadataEvent::SeatAdded(Some(_))),
    {
        match event {
            MetadataEvent::Connect => {
                self.metadata.connected = true;
                false
            },
            MetadataEvent::Disconnect => {
                self.metadata.disconnected = true;
                false
            },
            MetadataEvent::SeatAdded(Some(seat)) => {
                self.metadata.seats.push(seat);
                true
            },
            MetadataEvent::DeviceAdded(Some(device)) => {
                self.metadata.devices.push(device);
                false
            },
            MetadataEvent::StartEmulating { sequence } => {
                if record_event_names {
                    if let Some(mut last) = self.metadata.event_types.pop() {
                        last.push_str("(sequence=");
                        push_decimal(&mut last, sequence as u64);
                        last.push_str(")");
                        assert(last@ =~= old(self)@.event_types.last() + sequence_note(sequence));
                        self.metadata.event_types.push(last);
                    }
                    assert(self@.event_types =~= after_metadata(
                        old(self)@,
                        event,
                        record_event_names,
                    ).event_types);
                }
                false
            },
            _ => false,
        }
    }
}

/// Which input events carry, by the number of their type.
pub proof fn law_types_of_events(event_type: i32)
    ensures
        input_kind_of(200) == Some(InputKind::StartEmulating),
        input_kind_of(201) == Some(InputKind::StopEmulating),
        input_kind_of(100) == Some(InputKind::Frame),
        input_kind_of(300) == Some(InputKind::RelativePointer),
        input_kind_of(400) == Some(InputKind::AbsolutePointer),
        input_kind_of(500) == Some(InputKind::Button),
        input_kind_of(600) == Some(InputKind::ScrollDelta),
        input_kind_of(601) == Some(InputKind::ScrollStop),
        input_kind_of(602) == Some(InputKind::ScrollCancel),
        input_kind_of(603) == Some(InputKind::ScrollDiscrete),
        input_kind_of(700) == Some(InputKind::Key),
        input_kind_of(800) == Some(InputKind::TouchDown),
        input_kind_of(801) == Some(InputKind::TouchUp),
        input_kind_of(802) == Some(InputKind::TouchMotion),
        event_type < 100 || 100 < event_type < 200 || 201 < event_type < 300 || 300 < event_type
            < 400 || 400 < event_type < 500 || 500 < event_type < 600 || 603 < event_type < 700
            || 700 < event_type < 800 || event_type > 802 ==> input_kind_of(event_type) is None,
{
}

/// An event carries what its fields say: keys and buttons their code, if the wire
/// can carry it, and whether they are pressed; movement and scrolling their
/// amounts, each along its own axis; contacts their number and place.
pub proof fn law_events_carry_their_fields(fields: EventFields)
    ensures
        fields.code <= 65535 ==> decoded_input(700, fields) == Some(
            Some(CapturedEvent::Key { evdev: fields.code as u16, pressed: fields.pressed }),
        ) && decoded_input(500, fields) == Some(
            Some(CapturedEvent::Button { evdev: fields.code as u16, pressed: fields.pressed }),
        ),
        fields.code > 65535 ==> decoded_input(700, fields) == Some(None::<CapturedEvent>)
            && decoded_input(500, fields) == Some(None::<CapturedEvent>),
        decoded_input(300, fields) == Some(
            Some(CapturedEvent::RelativePointer { dx: fields.dx, dy: fields.dy }),
        ),
        decoded_input(400, fields) == Some(Some(CapturedEvent::AbsolutePointer(fields.absolute))),
        decoded_input(600, fields) == Some(
            Some(
                CapturedEvent::ScrollDelta {
                    horizontal: fields.dx,
                    vertical: fields.dy,
                    moved_horizontal: fields.moved_x,
                    moved_vertical: fields.moved_y,
                },
            ),
        ),
        decoded_input(603, fields) == Some(
            Some(
                CapturedEvent::ScrollDiscrete {
                    horizontal: fields.discrete_x,
                    vertical: fields.discrete_y,
                },
            ),
        ),
        decoded_input(601, fields) == Some(
            Some(CapturedEvent::ScrollStop { horizontal: fields.stop_x, vertical: fields.stop_y }),
        ),
        decoded_input(602, fields) == Some(
            Some(
                CapturedEvent::ScrollCancel { horizontal: fields.stop_x, vertical: fields.stop_y },
            ),
        ),
        decoded_input(800, fields) == Some(
            Some(
                CapturedEvent::TouchDown {
                    id: fields.contact,
                    x: fields.contact_x,
                    y: fields.contact_y,
                },
            ),
        ),
        decoded_input(802, fields) == Some(
            Some(
                CapturedEvent::TouchMotion {
                    id: fields.contact,
                    x: fields.contact_x,
                    y: fields.contact_y,
                    zoom_steps: fields.zoom_steps,
                },
            ),
        ),
        decoded_input(801, fields) == Some(
            Some(CapturedEvent::TouchUp { id: fields.contact, cancelled: fields.cancelled }),
        ),
        decoded_input(100, fields) == Some(
            Some(CapturedEvent::Frame { time_micros: fields.time_micros }),
        ),
        decoded_input(200, fields) == Some(
            Some(CapturedEvent::StartEmulating { sequence: fields.sequence }),
        ),
        decoded_input(201, fields) == Some(Some(CapturedEvent::StopEmulating)),
{
}

/// A device has a capability exactly if its bit is set, and they are named in
/// the order of the bits.
pub proof fn law_bits_are_capabilities(available: u32)
    ensures
        capability_names(available) == named(available % 2 == 1, "pointer") + named(
            available / 2 % 2 == 1,
            "pointer-absolute",
        ) + named(available / 4 % 2 == 1, "keyboard") + named(available / 8 % 2 == 1, "touch")
            + named(available / 16 % 2 == 1, "scroll") + named(available / 32 % 2 == 1, "button")
            + named(available / 64 % 2 == 1, "text"),
        named(true, "pointer") == seq!["pointer"],
        named(false, "pointer") == Seq::<&str>::empty(),
{
    assert((available & 1 != 0) == (available % 2 == 1) && (available & 2 != 0) == (available / 2
        % 2 == 1) && (available & 4 != 0) == (available / 4 % 2 == 1) && (available & 8 != 0) == (
    available / 8 % 2 == 1) && (available & 16 != 0) == (available / 16 % 2 == 1) && (available & 32
        != 0) == (available / 32 % 2 == 1) && (available & 64 != 0) == (available / 64 % 2 == 1))
        by (bit_vector);
}

/// A wait is told to the system in whole milliseconds: none for no wait, and
/// else at least one, the fraction being cut off, and no more than it can take.
pub proof fn law_waits_in_milliseconds(nanos: u128)
    ensures
        poll_ms(nanos) == 0 <==> nanos == 0,
        0 < nanos < 1_000_000 ==> poll_ms(nanos) == 1,
        1_000_000 <= nanos && nanos < 2_147_483_648_000_000 ==> poll_ms(nanos) * 1_000_000 <= nanos
            && nanos < (poll_ms(nanos) + 1) * 1_000_000,
        nanos >= 2_147_483_648_000_000 ==> poll_ms(nanos) == i32::MAX,
{
}

/// What is known of the other end grows with what it tells, in the order in which
/// it does.
pub proof fn law_what_is_told_is_known(
    known: MetadataView,
    seat: SeatMetadata,
    device: DeviceMetadata,
    sequence: u32,
    names: bool,
)
    ensures
        after_metadata(known, MetadataEvent::Connect, names).connected,
        after_metadata(known, MetadataEvent::Connect, names).disconnected == known.disconnected,
        after_metadata(known, MetadataEvent::Disconnect, names).disconnected,
        after_metadata(known, MetadataEvent::Disconnect, names).connected == known.connected,
        after_metadata(known, MetadataEvent::SeatAdded(Some(seat)), names).seats
            == known.seats.push(seat),
        after_metadata(known, MetadataEvent::SeatAdded(Some(seat)), names).devices == known.devices,
        after_metadata(known, MetadataEvent::DeviceAdded(Some(device)), names).devices
            == known.devices.push(device),
        after_metadata(known, MetadataEvent::DeviceAdded(Some(device)), names).seats == known.seats,
        after_metadata(known, MetadataEvent::SeatAdded(None), names) == known,
        after_metadata(known, MetadataEvent::DeviceAdded(None), names) == known,
        after_metadata(known, MetadataEvent::Other, names) == known,
        after_metadata(known, MetadataEvent::StartEmulating { sequence }, false) == known,
        known.event_types.len() > 0 ==> {
            let after = after_metadata(known, MetadataEvent::StartEmulating { sequence }, true);
            &&& after.event_types.len() == known.event_types.len()
            &&& after.event_types.last() == known.event_types.last() + "(sequence="@
                + crate::text::decimal(sequence as nat) + ")"@
            &&& after.event_types.drop_last() == known.event_types.drop_last()
        },
        MetadataView::unknown().devices.len() == 0,
        !MetadataView::unknown().connected,
        !MetadataView::unknown().disconnected,
{
    if known.event_types.len() > 0 {
        let after = after_metadata(known, MetadataEvent::StartEmulating { sequence }, true);
        assert(after.event_types.last() =~= known.event_types.last() + "(sequence="@
            + crate::text::decimal(sequence as nat) + ")"@);
        assert(after.event_types.drop_last() =~= known.event_types.drop_last());
    }
}

/// One wait takes no longer than what is left, and no longer than its share: a
/// quarter of a second while connecting, a tenth while devices are announced.
pub proof fn law_waits_are_shared_out(remaining: u128, most: u128)
    ensures
        slice(remaining, most) <= remaining,
        slice(remaining, most) <= most,
        slice(remaining, most) == remaining || slice(remaining, most) == most,
        CONNECT_SLICE_NANOS == 250_000_000,
        ANNOUNCE_SLICE_NANOS == 100_000_000,
        ANNOUNCE_NANOS == 750_000_000,
{
}

/// The refusal of a code names the kind of control and the code.
pub proof fn law_refused_codes_are_named(value: u32, kind: Seq<char>)
    ensures
        checked_evdev_text(value, kind) == "EIS "@ + kind + " code "@ + crate::text::decimal(
            value as nat,
        ) + " exceeds the supported u16 range"@,
{
}

} // verus!
