//! Small, strict, versioned messages carried inside encrypted packets.
use vstd::prelude::*;

use crate::wire::{get_i32, get_u16, get_u32, put_bytes, put_i32, put_u16, put_u32};

verus! {

/// Version 5 adds normalized multi-touch contacts. Normalization lets a
/// physical touch surface map safely to the remote compositor's touch region
/// without assuming matching dimensions. Other versions fail closed.
pub const PROTOCOL_VERSION: u8 = 5;

pub const MAX_FRAME_PAYLOAD: usize = 64;

pub const HEARTBEAT_INTERVAL_MS: u64 = 1_000;

pub const PEER_TIMEOUT_MS: u64 = 5_000;

pub const KIND_INPUT: u8 = 1;

pub const KIND_HEARTBEAT: u8 = 2;

pub const KIND_RELEASE_ALL: u8 = 3;

pub const KIND_GOODBYE: u8 = 4;

pub const KIND_ENTER: u8 = 5;

pub const KIND_ENTER_ACK: u8 = 6;

pub const KIND_ENTER_REJECTED: u8 = 7;

pub const KIND_HANDOFF_RELEASE: u8 = 8;

pub const KIND_EXIT_REQUEST: u8 = 9;

pub const KIND_POINTER_MOTION: u8 = 10;

pub const KIND_TOUCH: u8 = 11;

pub const INPUT_PAYLOAD_LEN: usize = 8;

pub const ENTER_PAYLOAD_LEN: usize = 8;

pub const EXIT_REQUEST_PAYLOAD_LEN: usize = 9;

pub const POINTER_MOTION_PAYLOAD_LEN: usize = 8;

pub const TOUCH_PAYLOAD_LEN: usize = 9;

/// An evdev-style event using Linux kernel type/code/value values.
#[derive(Debug, Clone, Copy, PartialEq, Eq, Structural)]
pub struct WireInputEvent {
    pub event_type: u16,
    pub code: u16,
    pub value: i32,
}

/// A phase in one independently tracked touch contact.
#[derive(Debug, Clone, Copy, PartialEq, Eq, Structural)]
pub enum TouchPhase {
    Down,
    Motion,
    Up,
    Cancel,
}

/// Coordinates are normalized to the inclusive u16 range. This retains fine
/// trackpad precision while allowing the client to map contacts to its own
/// advertised touch region.
#[derive(Debug, Clone, Copy, PartialEq, Eq, Structural)]
pub struct WireTouchEvent {
    pub phase: TouchPhase,
    pub id: u32,
    pub x: u16,
    pub y: u16,
}

/// A horizontal logical display edge represented independently of compositor
/// types so malformed control frames can be rejected at the wire boundary.
#[derive(Debug, Clone, Copy, PartialEq, Eq, Structural)]
pub enum WireEdge {
    Left,
    Right,
}

#[derive(Debug, Clone, Copy, PartialEq, Eq, Structural)]
pub enum Message {
    Input(WireInputEvent),
    Heartbeat,
    /// Receiver must release all controls previously injected by this session.
    ReleaseAll,
    /// Cleanly finishes a demo session after all controls have been released.
    Goodbye,
    /// An authenticated peer requests an edge handoff at a logical pointer
    /// coordinate. It must not forward input until it receives `EnterAck`.
    Enter { x: i32, y: i32 },
    /// Accepts the immediately preceding `Enter` request.
    EnterAck,
    /// Rejects the immediately preceding `Enter` request.
    EnterRejected,
    /// End the edge-handoff session and release all remotely injected state.
    HandoffRelease,
    /// The active client crossed `edge` at logical `x, y` and requests return
    /// to the host. Only an active entry may issue this control frame.
    ExitRequest { edge: WireEdge, x: i32, y: i32 },
    /// A coalesced relative pointer sample: both axes are injected in one
    /// frame on the controlled desktop.
    PointerMotion { dx: i32, dy: i32 },
    Touch(WireTouchEvent),
    /// A round-trip probe. Probes have no form on the wire: this version knows
    /// no kind for them.
    DiagnosticPing { sequence: u32 },
    /// The answer to a probe.
    DiagnosticPong { sequence: u32 },
}

/// Whether a message can be written as a frame: all but the probes.
pub open spec fn has_wire_form(message: Message) -> bool {
    message !is DiagnosticPing && message !is DiagnosticPong
}

/// Whether a message can be written as a frame.
pub fn is_wire_message(message: &Message) -> (wire: bool)
    ensures
        wire == has_wire_form(*message),
{
    match message {
        Message::DiagnosticPing { .. } | Message::DiagnosticPong { .. } => false,
        _ => true,
    }
}

#[derive(Debug, Clone, Copy, PartialEq, Eq, Structural)]
pub enum ProtocolError {
    TooShort,
    UnsupportedVersion(u8),
    UnknownKind(u8),
    LengthMismatch { declared: usize, actual: usize },
    PayloadTooLarge,
    InvalidPayloadLength { kind: u8, actual: usize },
    InvalidEdge(u8),
    InvalidTouchPhase(u8),
}

/// The kind byte that announces a message; for one without a wire form a byte
/// that announces nothing.
pub open spec fn kind_of(message: Message) -> u8 {
    match message {
        Message::Input(_) => KIND_INPUT,
        Message::Heartbeat => KIND_HEARTBEAT,
        Message::ReleaseAll => KIND_RELEASE_ALL,
        Message::Goodbye => KIND_GOODBYE,
        Message::Enter { .. } => KIND_ENTER,
        Message::EnterAck => KIND_ENTER_ACK,
        Message::EnterRejected => KIND_ENTER_REJECTED,
        Message::HandoffRelease => KIND_HANDOFF_RELEASE,
        Message::ExitRequest { .. } => KIND_EXIT_REQUEST,
        Message::PointerMotion { .. } => KIND_POINTER_MOTION,
        Message::Touch(_) => KIND_TOUCH,
        Message::DiagnosticPing { .. } | Message::DiagnosticPong { .. } => 0,
    }
}

pub open spec fn edge_byte(edge: WireEdge) -> u8 {
    match edge {
        WireEdge::Left => 0,
        WireEdge::Right => 1,
    }
}

pub open spec fn phase_byte(phase: TouchPhase) -> u8 {
    match phase {
        TouchPhase::Down => 0,
        TouchPhase::Motion => 1,
        TouchPhase::Up => 2,
        TouchPhase::Cancel => 3,
    }
}

/// The payload bytes that follow the four-byte header.
pub open spec fn payload_of(message: Message) -> Seq<u8> {
    match message {
        Message::Input(event) => crate::wire::be16(event.event_type) + crate::wire::be16(event.code)
            + crate::wire::be_i32(event.value),
        Message::Enter { x, y } => crate::wire::be_i32(x) + crate::wire::be_i32(y),
        Message::ExitRequest { edge, x, y } => seq![edge_byte(edge)] + crate::wire::be_i32(x)
            + crate::wire::be_i32(y),
        Message::PointerMotion { dx, dy } => crate::wire::be_i32(dx) + crate::wire::be_i32(dy),
        Message::Touch(event) => seq![phase_byte(event.phase)] + crate::wire::be32(event.id)
            + crate::wire::be16(event.x) + crate::wire::be16(event.y),
        _ => Seq::empty(),
    }
}

/// The payload length that belongs to a kind byte, if the kind is known.
pub open spec fn payload_len_of_kind(kind: u8) -> Option<nat> {
    if kind == KIND_INPUT || kind == KIND_ENTER || kind == KIND_POINTER_MOTION {
        Some(8)
    } else if kind == KIND_EXIT_REQUEST || kind == KIND_TOUCH {
        Some(9)
    } else if KIND_HEARTBEAT <= kind <= KIND_GOODBYE || KIND_ENTER_ACK <= kind
        <= KIND_HANDOFF_RELEASE {
        Some(0)
    } else {
        None
    }
}

/// A whole frame: version, kind, payload length, payload.
pub open spec fn frame_of(message: Message) -> Seq<u8> {
    seq![PROTOCOL_VERSION, kind_of(message)] + crate::wire::be16(payload_of(message).len() as u16)
        + payload_of(message)
}

/// Why bytes are not the payload of any message of a kind.
pub open spec fn payload_fault(kind: u8, payload: Seq<u8>) -> Option<ProtocolError> {
    match payload_len_of_kind(kind) {
        None => Some(ProtocolError::UnknownKind(kind)),
        Some(len) => if len != payload.len() {
            Some(ProtocolError::InvalidPayloadLength { kind, actual: payload.len() as usize })
        } else if kind == KIND_EXIT_REQUEST && payload[0] > 1 {
            Some(ProtocolError::InvalidEdge(payload[0]))
        } else if kind == KIND_TOUCH && payload[0] > 3 {
            Some(ProtocolError::InvalidTouchPhase(payload[0]))
        } else {
            None
        },
    }
}

/// Why a byte string is not a frame; `None` for every frame.
pub open spec fn frame_fault(frame: Seq<u8>) -> Option<ProtocolError> {
    let declared = crate::wire::u16_at(frame, 2) as usize;
    let actual = (frame.len() - 4) as usize;
    if frame.len() < 4 {
        Some(ProtocolError::TooShort)
    } else if frame[0] != PROTOCOL_VERSION {
        Some(ProtocolError::UnsupportedVersion(frame[0]))
    } else if declared > MAX_FRAME_PAYLOAD {
        Some(ProtocolError::PayloadTooLarge)
    } else if declared != actual {
        Some(ProtocolError::LengthMismatch { declared, actual })
    } else {
        payload_fault(frame[1], frame.subrange(4, frame.len() as int))
    }
}

/// The outcome of decoding: the fault, or the one message with that frame.
pub open spec fn decoded(frame: Seq<u8>) -> Result<Message, ProtocolError> {
    match frame_fault(frame) {
        Some(error) => Err(error),
        None => Ok(
            choose|message: Message|
                has_wire_form(message) && #[trigger] frame_of(message) == frame,
        ),
    }
}

/// Frames are never longer than the header and the largest payload of any kind.
pub proof fn lemma_frame_shape(message: Message)
    requires
        has_wire_form(message),
    ensures
        payload_len_of_kind(kind_of(message)) == Some(payload_of(message).len()),
        payload_of(message).len() <= 9,
        frame_of(message).len() == 4 + payload_of(message).len(),
        frame_of(message)[0] == PROTOCOL_VERSION,
        frame_of(message)[1] == kind_of(message),
        crate::wire::u16_at(frame_of(message), 2) == payload_of(message).len(),
        frame_of(message).subrange(4, frame_of(message).len() as int) == payload_of(message),
{
    let frame = frame_of(message);
    assert(frame.subrange(4, frame.len() as int) =~= payload_of(message));
    assert(frame.subrange(2, 4) =~= crate::wire::be16(payload_of(message).len() as u16));
    crate::wire::lemma_u16_at(frame, 2, payload_of(message).len() as u16);
}

/// No encoded message is rejected, and two messages never share a frame.
pub proof fn law_frames_are_accepted_and_distinct(a: Message, b: Message)
    requires
        has_wire_form(a),
        has_wire_form(b),
    ensures
        frame_fault(frame_of(a)) is None,
        frame_of(a) == frame_of(b) ==> a == b,
        frame_of(a).len() <= 4 + MAX_FRAME_PAYLOAD,
{
    lemma_frame_shape(a);
    lemma_frame_shape(b);
    let pa = payload_of(a);
    let frame = frame_of(a);
    assert(frame.subrange(4, frame.len() as int) =~= pa);
    if frame_of(a) == frame_of(b) {
        lemma_payload_determines(a, b);
    }
}

/// The payload and the kind fix the message.
proof fn lemma_payload_determines(a: Message, b: Message)
    requires
        has_wire_form(a),
        has_wire_form(b),
        payload_of(a) == payload_of(b),
        kind_of(a) == kind_of(b),
    ensures
        a == b,
{
    let p = payload_of(a);
    match a {
        Message::Input(e) => {
            lemma_input_payload(p, e);
            lemma_input_payload(p, b->Input_0);
        },
        Message::Enter { x, y } => {
            lemma_pair_payload(p, x, y);
            lemma_pair_payload(p, b->Enter_x, b->Enter_y);
        },
        Message::PointerMotion { dx, dy } => {
            lemma_pair_payload(p, dx, dy);
            lemma_pair_payload(p, b->dx, b->dy);
        },
        Message::ExitRequest { edge, x, y } => {
            lemma_exit_payload(p, edge, x, y);
            lemma_exit_payload(p, b->edge, b->ExitRequest_x, b->ExitRequest_y);
        },
        Message::Touch(e) => {
            lemma_touch_payload(p, e);
            lemma_touch_payload(p, b->Touch_0);
        },
        _ => {},
    }
}

proof fn lemma_input_payload(p: Seq<u8>, e: WireInputEvent)
    requires
        p.len() == 8,
    ensures
        p == payload_of(Message::Input(e)) <==> (crate::wire::u16_at(p, 0) == e.event_type
            && crate::wire::u16_at(p, 2) == e.code && crate::wire::i32_at(p, 4) == e.value),
{
    crate::wire::lemma_u16_at(p, 0, e.event_type);
    crate::wire::lemma_u16_at(p, 2, e.code);
    crate::wire::lemma_i32_at(p, 4, e.value);
    assert(p =~= p.subrange(0, 2) + p.subrange(2, 4) + p.subrange(4, 8));
    let q = payload_of(Message::Input(e));
    assert(q.subrange(0, 2) =~= crate::wire::be16(e.event_type));
    assert(q.subrange(2, 4) =~= crate::wire::be16(e.code));
    assert(q.subrange(4, 8) =~= crate::wire::be_i32(e.value));
}

proof fn lemma_pair_payload(p: Seq<u8>, x: i32, y: i32)
    requires
        p.len() == 8,
    ensures
        p == crate::wire::be_i32(x) + crate::wire::be_i32(y) <==> (crate::wire::i32_at(p, 0) == x
            && crate::wire::i32_at(p, 4) == y),
{
    crate::wire::lemma_i32_at(p, 0, x);
    crate::wire::lemma_i32_at(p, 4, y);
    assert(p =~= p.subrange(0, 4) + p.subrange(4, 8));
    let q = crate::wire::be_i32(x) + crate::wire::be_i32(y);
    assert(q.subrange(0, 4) =~= crate::wire::be_i32(x));
    assert(q.subrange(4, 8) =~= crate::wire::be_i32(y));
}

proof fn lemma_exit_payload(p: Seq<u8>, edge: WireEdge, x: i32, y: i32)
    requires
        p.len() == 9,
    ensures
        p == payload_of(Message::ExitRequest { edge, x, y }) <==> (p[0] == edge_byte(edge)
            && crate::wire::i32_at(p, 1) == x && crate::wire::i32_at(p, 5) == y),
{
    crate::wire::lemma_i32_at(p, 1, x);
    crate::wire::lemma_i32_at(p, 5, y);
    assert(p =~= seq![p[0]] + p.subrange(1, 5) + p.subrange(5, 9));
    let q = payload_of(Message::ExitRequest { edge, x, y });
    assert(q[0] == edge_byte(edge));
    assert(q.subrange(1, 5) =~= crate::wire::be_i32(x));
    assert(q.subrange(5, 9) =~= crate::wire::be_i32(y));
}

proof fn lemma_touch_payload(p: Seq<u8>, e: WireTouchEvent)
    requires
        p.len() == 9,
    ensures
        p == payload_of(Message::Touch(e)) <==> (p[0] == phase_byte(e.phase)
            && crate::wire::u32_at(p, 1) == e.id && crate::wire::u16_at(p, 5) == e.x
            && crate::wire::u16_at(p, 7) == e.y),
{
    crate::wire::lemma_u32_at(p, 1, e.id);
    crate::wire::lemma_u16_at(p, 5, e.x);
    crate::wire::lemma_u16_at(p, 7, e.y);
    assert(p =~= seq![p[0]] + p.subrange(1, 5) + p.subrange(5, 7) + p.subrange(7, 9));
    let q = payload_of(Message::Touch(e));
    assert(q[0] == phase_byte(e.phase));
    assert(q.subrange(1, 5) =~= crate::wire::be32(e.id));
    assert(q.subrange(5, 7) =~= crate::wire::be16(e.x));
    assert(q.subrange(7, 9) =~= crate::wire::be16(e.y));
}

/// Encodes a message as one frame.
pub fn encode_frame(message: Message) -> (frame: Vec<u8>)
    requires
        has_wire_form(message),
    ensures
        frame@ == frame_of(message),
{
    let mut payload: Vec<u8> = Vec::new();
    let kind: u8;
    match message {
        Message::Input(event) => {
            put_u16(&mut payload, event.event_type);
            put_u16(&mut payload, event.code);
            put_i32(&mut payload, event.value);
            kind = KIND_INPUT;
        },
        Message::Heartbeat => {
            kind = KIND_HEARTBEAT;
        },
        Message::ReleaseAll => {
            kind = KIND_RELEASE_ALL;
        },
        Message::Goodbye => {
            kind = KIND_GOODBYE;
        },
        Message::Enter { x, y } => {
            put_i32(&mut payload, x);
            put_i32(&mut payload, y);
            kind = KIND_ENTER;
        },
        Message::EnterAck => {
            kind = KIND_ENTER_ACK;
        },
        Message::EnterRejected => {
            kind = KIND_ENTER_REJECTED;
        },
        Message::HandoffRelease => {
            kind = KIND_HANDOFF_RELEASE;
        },
        Message::ExitRequest { edge, x, y } => {
            payload.push(
                match edge {
                    WireEdge::Left => 0,
                    WireEdge::Right => 1,
                },
            );
            put_i32(&mut payload, x);
            put_i32(&mut payload, y);
            kind = KIND_EXIT_REQUEST;
        },
        Message::PointerMotion { dx, dy } => {
            put_i32(&mut payload, dx);
            put_i32(&mut payload, dy);
            kind = KIND_POINTER_MOTION;
        },
        Message::Touch(event) => {
            payload.push(
                match event.phase {
                    TouchPhase::Down => 0,
                    TouchPhase::Motion => 1,
                    TouchPhase::Up => 2,
                    TouchPhase::Cancel => 3,
                },
            );
            put_u32(&mut payload, event.id);
            put_u16(&mut payload, event.x);
            put_u16(&mut payload, event.y);
            kind = KIND_TOUCH;
        },
        Message::DiagnosticPing { .. } | Message::DiagnosticPong { .. } => {
            kind = 0;
        },
    }
    assert(payload@ =~= payload_of(message));
    let mut frame: Vec<u8> = Vec::new();
    frame.push(PROTOCOL_VERSION);
    frame.push(kind);
    put_u16(&mut frame, payload.len() as u16);
    put_bytes(&mut frame, payload.as_slice());
    assert(frame@ =~= frame_of(message));
    frame
}

/// Decodes the payload of a known frame header.
fn decode_payload(kind: u8, payload: &[u8]) -> (result: Result<Message, ProtocolError>)
    ensures
        match result {
            Ok(message) => payload_fault(kind, payload@) is None && kind_of(message) == kind
                && payload_of(message) == payload@,
            Err(error) => payload_fault(kind, payload@) == Some(error),
        },
{
    let actual: usize = payload.len();
    if kind == KIND_INPUT && actual == INPUT_PAYLOAD_LEN {
        let event = WireInputEvent {
            event_type: get_u16(payload, 0),
            code: get_u16(payload, 2),
            value: get_i32(payload, 4),
        };
        proof {
            lemma_input_payload(payload@, event);
        }
        Ok(Message::Input(event))
    } else if KIND_HEARTBEAT <= kind && kind <= KIND_GOODBYE && actual == 0 {
        assert(payload@ =~= Seq::<u8>::empty());
        Ok(
            if kind == KIND_HEARTBEAT {
                Message::Heartbeat
            } else if kind == KIND_RELEASE_ALL {
                Message::ReleaseAll
            } else {
                Message::Goodbye
            },
        )
    } else if kind == KIND_ENTER && actual == ENTER_PAYLOAD_LEN {
        let x: i32 = get_i32(payload, 0);
        let y: i32 = get_i32(payload, 4);
        proof {
            lemma_pair_payload(payload@, x, y);
        }
        Ok(Message::Enter { x, y })
    } else if KIND_ENTER_ACK <= kind && kind <= KIND_HANDOFF_RELEASE && actual == 0 {
        assert(payload@ =~= Seq::<u8>::empty());
        Ok(
            if kind == KIND_ENTER_ACK {
                Message::EnterAck
            } else if kind == KIND_ENTER_REJECTED {
                Message::EnterRejected
            } else {
                Message::HandoffRelease
            },
        )
    } else if kind == KIND_EXIT_REQUEST && actual == EXIT_REQUEST_PAYLOAD_LEN {
        let edge = if payload[0] == 0 {
            WireEdge::Left
        } else if payload[0] == 1 {
            WireEdge::Right
        } else {
            return Err(ProtocolError::InvalidEdge(payload[0]));
        };
        let x: i32 = get_i32(payload, 1);
        let y: i32 = get_i32(payload, 5);
        proof {
            lemma_exit_payload(payload@, edge, x, y);
        }
        Ok(Message::ExitRequest { edge, x, y })
    } else if kind == KIND_POINTER_MOTION && actual == POINTER_MOTION_PAYLOAD_LEN {
        let dx: i32 = get_i32(payload, 0);
        let dy: i32 = get_i32(payload, 4);
        proof {
            lemma_pair_payload(payload@, dx, dy);
        }
        Ok(Message::PointerMotion { dx, dy })
    } else if kind == KIND_TOUCH && actual == TOUCH_PAYLOAD_LEN {
        let phase = if payload[0] == 0 {
            TouchPhase::Down
        } else if payload[0] == 1 {
            TouchPhase::Motion
        } else if payload[0] == 2 {
            TouchPhase::Up
        } else if payload[0] == 3 {
            TouchPhase::Cancel
        } else {
            return Err(ProtocolError::InvalidTouchPhase(payload[0]));
        };
        let event = WireTouchEvent {
            phase,
            id: get_u32(payload, 1),
            x: get_u16(payload, 5),
            y: get_u16(payload, 7),
        };
        proof {
            lemma_touch_payload(payload@, event);
        }
        Ok(Message::Touch(event))
    } else if KIND_INPUT <= kind && kind <= KIND_TOUCH {
        Err(ProtocolError::InvalidPayloadLength { kind, actual })
    } else {
        Err(ProtocolError::UnknownKind(kind))
    }
}

/// Decodes one frame. A byte string is accepted exactly when it is the frame
/// of some message, and then that message is returned.
pub fn decode_frame(frame: &[u8]) -> (result: Result<Message, ProtocolError>)
    ensures
        result == decoded(frame@),
        result matches Ok(message) ==> has_wire_form(message) && frame@ == frame_of(message),
{
    if frame.len() < 4 {
        return Err(ProtocolError::TooShort);
    }
    if frame[0] != PROTOCOL_VERSION {
        return Err(ProtocolError::UnsupportedVersion(frame[0]));
    }
    let declared: usize = get_u16(frame, 2) as usize;
    let actual: usize = frame.len() - 4;
    if declared > MAX_FRAME_PAYLOAD {
        return Err(ProtocolError::PayloadTooLarge);
    }
    if declared != actual {
        return Err(ProtocolError::LengthMismatch { declared, actual });
    }
    let payload = vstd::slice::slice_subrange(frame, 4, frame.len());
    let result = decode_payload(frame[1], payload);
    proof {
        if let Ok(message) = result {
            lemma_header_and_payload(frame@, message);
            lemma_decoded_is_unique(frame@, message);
        }
    }
    result
}

proof fn lemma_header_and_payload(frame: Seq<u8>, message: Message)
    requires
        frame.len() >= 4,
        frame[0] == PROTOCOL_VERSION,
        frame[1] == kind_of(message),
        crate::wire::u16_at(frame, 2) == frame.len() - 4,
        frame.subrange(4, frame.len() as int) == payload_of(message),
    ensures
        frame == frame_of(message),
{
    crate::wire::lemma_u16_at(frame, 2, (frame.len() - 4) as u16);
    assert(frame =~= seq![frame[0], frame[1]] + frame.subrange(2, 4) + frame.subrange(
        4,
        frame.len() as int,
    ));
}

proof fn lemma_decoded_is_unique(frame: Seq<u8>, message: Message)
    requires
        has_wire_form(message),
        frame == frame_of(message),
    ensures
        decoded(frame) == Ok::<Message, ProtocolError>(message),
{
    law_frames_are_accepted_and_distinct(message, message);
    let chosen = choose|m: Message| has_wire_form(m) && #[trigger] frame_of(m) == frame;
    assert(frame_of(message) == frame);
    law_frames_are_accepted_and_distinct(message, chosen);
}

/// Decoding what was encoded gives the message back.
pub proof fn law_decode_inverts_encode(message: Message)
    requires
        has_wire_form(message),
    ensures
        decoded(frame_of(message)) == Ok::<Message, ProtocolError>(message),
{
    lemma_decoded_is_unique(frame_of(message), message);
}

/// Only canonical frames are accepted: what decodes is exactly what encoding
/// the decoded message gives.
pub proof fn law_encode_inverts_decode(frame: Seq<u8>)
    requires
        frame.len() <= usize::MAX,
        decoded(frame) is Ok,
    ensures
        has_wire_form(decoded(frame)->Ok_0),
        frame_of(decoded(frame)->Ok_0) == frame,
{
    lemma_faultless_is_frame(frame);
}

/// Bytes without a fault are the frame of some message.
proof fn lemma_faultless_is_frame(frame: Seq<u8>)
    requires
        frame.len() <= usize::MAX,
        frame_fault(frame) is None,
    ensures
        exists|message: Message| has_wire_form(message) && #[trigger] frame_of(message) == frame,
{
    let payload = frame.subrange(4, frame.len() as int);
    let kind = frame[1];
    let message = message_of(kind, payload);
    if kind == KIND_INPUT {
        lemma_input_payload(payload, message->Input_0);
    } else if kind == KIND_ENTER {
        lemma_pair_payload(payload, message->Enter_x, message->Enter_y);
    } else if kind == KIND_POINTER_MOTION {
        lemma_pair_payload(payload, message->dx, message->dy);
    } else if kind == KIND_EXIT_REQUEST {
        lemma_exit_payload(payload, message->edge, message->ExitRequest_x, message->ExitRequest_y);
    } else if kind == KIND_TOUCH {
        lemma_touch_payload(payload, message->Touch_0);
    } else {
        assert(payload =~= Seq::<u8>::empty());
    }
    lemma_header_and_payload(frame, message);
    assert(frame_of(message) == frame);
}

/// The message whose kind and payload are given.
spec fn message_of(kind: u8, p: Seq<u8>) -> Message {
    if kind == KIND_INPUT {
        Message::Input(
            WireInputEvent {
                event_type: crate::wire::u16_at(p, 0),
                code: crate::wire::u16_at(p, 2),
                value: crate::wire::i32_at(p, 4),
            },
        )
    } else if kind == KIND_HEARTBEAT {
        Message::Heartbeat
    } else if kind == KIND_RELEASE_ALL {
        Message::ReleaseAll
    } else if kind == KIND_GOODBYE {
        Message::Goodbye
    } else if kind == KIND_ENTER {
        Message::Enter { x: crate::wire::i32_at(p, 0), y: crate::wire::i32_at(p, 4) }
    } else if kind == KIND_ENTER_ACK {
        Message::EnterAck
    } else if kind == KIND_ENTER_REJECTED {
        Message::EnterRejected
    } else if kind == KIND_HANDOFF_RELEASE {
        Message::HandoffRelease
    } else if kind == KIND_EXIT_REQUEST {
        Message::ExitRequest {
            edge: if p[0] == 0 {
                WireEdge::Left
            } else {
                WireEdge::Right
            },
            x: crate::wire::i32_at(p, 1),
            y: crate::wire::i32_at(p, 5),
        }
    } else if kind == KIND_POINTER_MOTION {
        Message::PointerMotion { dx: crate::wire::i32_at(p, 0), dy: crate::wire::i32_at(p, 4) }
    } else {
        Message::Touch(
            WireTouchEvent {
                phase: if p[0] == 0 {
                    TouchPhase::Down
                } else if p[0] == 1 {
                    TouchPhase::Motion
                } else if p[0] == 2 {
                    TouchPhase::Up
                } else {
                    TouchPhase::Cancel
                },
                id: crate::wire::u32_at(p, 1),
                x: crate::wire::u16_at(p, 5),
                y: crate::wire::u16_at(p, 7),
            },
        )
    }
}

/// The number in two bytes, the first one being the higher.
pub open spec fn pair_at(bytes: Seq<u8>, at: int) -> int {
    bytes[at] * 0x100 + bytes[at + 1]
}

/// The number in four bytes, the first one being the highest.
pub open spec fn quad_at(bytes: Seq<u8>, at: int) -> int {
    pair_at(bytes, at) * 0x1_0000 + pair_at(bytes, at + 2)
}

/// Whether a number between zero and 2^32 stands for an integer: for a negative
/// one it is the number that is 2^32 above it.
pub open spec fn stands_for(number: int, value: i32) -> bool {
    number == value || (value < 0 && number == value + 0x1_0000_0000)
}

proof fn lemma_quad(v: u32)
    ensures
        crate::wire::be32(v).len() == 4,
        quad_at(crate::wire::be32(v), 0) == v,
{
}

proof fn lemma_signed_quad(v: i32)
    ensures
        crate::wire::be_i32(v).len() == 4,
        stands_for(quad_at(crate::wire::be_i32(v), 0), v),
{
    lemma_quad(crate::wire::bits32(v));
}

proof fn lemma_quad_within(bytes: Seq<u8>, at: int, part: Seq<u8>)
    requires
        0 <= at,
        at + 4 <= bytes.len(),
        part.len() == 4,
        bytes.subrange(at, at + 4) == part,
    ensures
        quad_at(bytes, at) == quad_at(part, 0),
{
    let s = bytes.subrange(at, at + 4);
    assert(s[0] == bytes[at] && s[1] == bytes[at + 1] && s[2] == bytes[at + 2] && s[3]
        == bytes[at + 3]);
}

proof fn lemma_pair_within(bytes: Seq<u8>, at: int, v: u16)
    requires
        0 <= at,
        at + 2 <= bytes.len(),
        bytes.subrange(at, at + 2) == crate::wire::be16(v),
    ensures
        pair_at(bytes, at) == v,
{
    let s = bytes.subrange(at, at + 2);
    assert(s[0] == bytes[at] && s[1] == bytes[at + 1]);
}

/// Every frame begins with the version, 5, the byte of its kind and the number
/// of bytes that follow, which the kind alone decides.
pub proof fn law_frames_begin_with_their_header(message: Message)
    requires
        !(message is DiagnosticPing),
        !(message is DiagnosticPong),
    ensures
        ({
            let frame = frame_of(message);
            let (kind, len): (int, int) = match message {
                Message::Input(_) => (1, 8),
                Message::Heartbeat => (2, 0),
                Message::ReleaseAll => (3, 0),
                Message::Goodbye => (4, 0),
                Message::Enter { .. } => (5, 8),
                Message::EnterAck => (6, 0),
                Message::EnterRejected => (7, 0),
                Message::HandoffRelease => (8, 0),
                Message::ExitRequest { .. } => (9, 9),
                Message::PointerMotion { .. } => (10, 8),
                _ => (11, 9),
            };
            &&& has_wire_form(message)
            &&& frame.len() == 4 + len
            &&& frame[0] == 5
            &&& frame[1] == kind
            &&& pair_at(frame, 2) == len
        }),
{
    lemma_frame_shape(message);
}

/// Captured input stands in a frame behind its header, type, code and value in
/// this order.
pub proof fn law_input_frames_hold_the_event(event: WireInputEvent)
    ensures
        ({
            let frame = frame_of(Message::Input(event));
            &&& pair_at(frame, 4) == event.event_type
            &&& pair_at(frame, 6) == event.code
            &&& stands_for(quad_at(frame, 8), event.value)
        }),
{
    let frame = frame_of(Message::Input(event));
    assert(frame.subrange(4, 6) =~= crate::wire::be16(event.event_type));
    assert(frame.subrange(6, 8) =~= crate::wire::be16(event.code));
    lemma_pair_within(frame, 4, event.event_type);
    lemma_pair_within(frame, 6, event.code);
    lemma_signed_quad(event.value);
    assert(frame.subrange(8, 12) =~= crate::wire::be_i32(event.value));
    lemma_quad_within(frame, 8, crate::wire::be_i32(event.value));
}

/// Points and movements stand in a frame with the horizontal number first, an
/// exit with the edge before them.
pub proof fn law_frames_hold_the_coordinates(edge: WireEdge, x: i32, y: i32)
    ensures
        stands_for(quad_at(frame_of(Message::Enter { x, y }), 4), x),
        stands_for(quad_at(frame_of(Message::Enter { x, y }), 8), y),
        stands_for(quad_at(frame_of(Message::PointerMotion { dx: x, dy: y }), 4), x),
        stands_for(quad_at(frame_of(Message::PointerMotion { dx: x, dy: y }), 8), y),
        frame_of(Message::ExitRequest { edge, x, y })[4] == if edge == WireEdge::Left {
            0
        } else {
            1int
        },
        stands_for(quad_at(frame_of(Message::ExitRequest { edge, x, y }), 5), x),
        stands_for(quad_at(frame_of(Message::ExitRequest { edge, x, y }), 9), y),
{
    let bx = crate::wire::be_i32(x);
    let by = crate::wire::be_i32(y);
    lemma_signed_quad(x);
    lemma_signed_quad(y);
    let enter = frame_of(Message::Enter { x, y });
    assert(enter.subrange(4, 8) =~= bx);
    assert(enter.subrange(8, 12) =~= by);
    lemma_quad_within(enter, 4, bx);
    lemma_quad_within(enter, 8, by);
    let motion = frame_of(Message::PointerMotion { dx: x, dy: y });
    assert(motion.subrange(4, 8) =~= bx);
    assert(motion.subrange(8, 12) =~= by);
    lemma_quad_within(motion, 4, bx);
    lemma_quad_within(motion, 8, by);
    let exit = frame_of(Message::ExitRequest { edge, x, y });
    assert(exit.subrange(5, 9) =~= bx);
    assert(exit.subrange(9, 13) =~= by);
    lemma_quad_within(exit, 5, bx);
    lemma_quad_within(exit, 9, by);
}

/// A touch stands in a frame with its phase, its contact, its column and its
/// row.
pub proof fn law_touch_frames_hold_the_contact(event: WireTouchEvent)
    ensures
        ({
            let frame = frame_of(Message::Touch(event));
            &&& frame[4] == match event.phase {
                TouchPhase::Down => 0int,
                TouchPhase::Motion => 1,
                TouchPhase::Up => 2,
                TouchPhase::Cancel => 3,
            }
            &&& quad_at(frame, 5) == event.id
            &&& pair_at(frame, 9) == event.x
            &&& pair_at(frame, 11) == event.y
        }),
{
    let frame = frame_of(Message::Touch(event));
    lemma_quad(event.id);
    assert(frame.subrange(5, 9) =~= crate::wire::be32(event.id));
    lemma_quad_within(frame, 5, crate::wire::be32(event.id));
    assert(frame.subrange(9, 11) =~= crate::wire::be16(event.x));
    assert(frame.subrange(11, 13) =~= crate::wire::be16(event.y));
    lemma_pair_within(frame, 9, event.x);
    lemma_pair_within(frame, 11, event.y);
}

/// Which fault a byte string has that is no frame: the first of these that
/// applies.
pub proof fn law_what_is_no_frame_is_refused(frame: Seq<u8>)
    requires
        frame.len() <= usize::MAX,
    ensures
        frame.len() < 4 ==> decoded(frame) == Err::<Message, ProtocolError>(
            ProtocolError::TooShort,
        ),
        frame.len() >= 4 && frame[0] != 5 ==> decoded(frame) == Err::<Message, ProtocolError>(
            ProtocolError::UnsupportedVersion(frame[0]),
        ),
        frame.len() >= 4 && frame[0] == 5 && pair_at(frame, 2) > 64 ==> decoded(frame) == Err::<
            Message,
            ProtocolError,
        >(ProtocolError::PayloadTooLarge),
        frame.len() >= 4 && frame[0] == 5 && pair_at(frame, 2) <= 64 && pair_at(frame, 2)
            != frame.len() - 4 ==> decoded(frame) == Err::<Message, ProtocolError>(
            ProtocolError::LengthMismatch {
                declared: pair_at(frame, 2) as usize,
                actual: (frame.len() - 4) as usize,
            },
        ),
        frame.len() >= 4 && frame[0] == 5 && pair_at(frame, 2) <= 64 && pair_at(frame, 2)
            == frame.len() - 4 ==> {
            let len = frame.len() - 4;
            let kind = frame[1];
            let due: int = if kind == 1 || kind == 5 || kind == 10 {
                8
            } else if kind == 9 || kind == 11 {
                9
            } else {
                0
            };
            if kind == 0 || kind > 11 {
                decoded(frame) == Err::<Message, ProtocolError>(ProtocolError::UnknownKind(kind))
            } else if len != due {
                decoded(frame) == Err::<Message, ProtocolError>(
                    ProtocolError::InvalidPayloadLength { kind, actual: len as usize },
                )
            } else if kind == 9 && frame[4] > 1 {
                decoded(frame) == Err::<Message, ProtocolError>(
                    ProtocolError::InvalidEdge(frame[4]),
                )
            } else if kind == 11 && frame[4] > 3 {
                decoded(frame) == Err::<Message, ProtocolError>(
                    ProtocolError::InvalidTouchPhase(frame[4]),
                )
            } else {
                decoded(frame) is Ok
            }
        },
{
    if frame.len() > 4 {
        assert(frame.subrange(4, frame.len() as int)[0] == frame[4]);
    }
}

} // verus!
