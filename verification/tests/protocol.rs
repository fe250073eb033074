use cachybridge::protocol::{
    decode_frame, encode_frame, Message, ProtocolError, TouchPhase, WireEdge, WireInputEvent,
    WireTouchEvent, KIND_ENTER, KIND_EXIT_REQUEST, KIND_HEARTBEAT, KIND_TOUCH, MAX_FRAME_PAYLOAD,
    PROTOCOL_VERSION, TOUCH_PAYLOAD_LEN,
};

#[test]
fn input_round_trip() {
    let message = Message::Input(WireInputEvent {
        event_type: 1,
        code: 272,
        value: -1,
    });
    assert_eq!(decode_frame(&encode_frame(message)), Ok(message));
}

#[test]
fn rejects_future_version() {
    assert_eq!(
        decode_frame(&[PROTOCOL_VERSION + 1, KIND_HEARTBEAT, 0, 0]),
        Err(ProtocolError::UnsupportedVersion(PROTOCOL_VERSION + 1))
    );
}

#[test]
fn goodbye_round_trip() {
    assert_eq!(
        decode_frame(&encode_frame(Message::Goodbye)),
        Ok(Message::Goodbye)
    );
}

#[test]
fn edge_handoff_messages_round_trip() {
    for message in [
        Message::Enter { x: -1_440, y: 612 },
        Message::EnterAck,
        Message::EnterRejected,
        Message::HandoffRelease,
        Message::ExitRequest {
            edge: WireEdge::Right,
            x: -1,
            y: 612,
        },
        Message::PointerMotion { dx: 8, dy: -5 },
        Message::Touch(WireTouchEvent {
            phase: TouchPhase::Motion,
            id: 42,
            x: 32_000,
            y: 16_000,
        }),
    ] {
        assert_eq!(decode_frame(&encode_frame(message)), Ok(message));
    }
}

#[test]
fn enter_requires_an_exact_coordinate_payload() {
    assert_eq!(
        decode_frame(&[PROTOCOL_VERSION, KIND_ENTER, 0, 0]),
        Err(ProtocolError::InvalidPayloadLength {
            kind: KIND_ENTER,
            actual: 0,
        })
    );
}

#[test]
fn touch_rejects_unknown_phase_before_injection() {
    assert_eq!(
        decode_frame(&[
            PROTOCOL_VERSION,
            KIND_TOUCH,
            0,
            TOUCH_PAYLOAD_LEN as u8,
            9,
            0,
            0,
            0,
            1,
            0,
            0,
            0,
            0,
        ]),
        Err(ProtocolError::InvalidTouchPhase(9))
    );
}

#[test]
fn exit_request_rejects_an_unknown_edge() {
    assert_eq!(
        decode_frame(&[
            PROTOCOL_VERSION,
            KIND_EXIT_REQUEST,
            0,
            9,
            7,
            0,
            0,
            0,
            0,
            0,
            0,
            0,
            0
        ]),
        Err(ProtocolError::InvalidEdge(7))
    );
}

#[test]
fn frames_have_their_exact_bytes() {
    assert_eq!(
        encode_frame(Message::Input(WireInputEvent { event_type: 1, code: 272, value: -1 })),
        vec![5, 1, 0, 8, 0, 1, 1, 16, 255, 255, 255, 255]
    );
    assert_eq!(encode_frame(Message::Heartbeat), vec![5, 2, 0, 0]);
    assert_eq!(encode_frame(Message::ReleaseAll), vec![5, 3, 0, 0]);
    assert_eq!(encode_frame(Message::Goodbye), vec![5, 4, 0, 0]);
    assert_eq!(
        encode_frame(Message::Enter { x: -2, y: 258 }),
        vec![5, 5, 0, 8, 255, 255, 255, 254, 0, 0, 1, 2]
    );
    assert_eq!(
        encode_frame(Message::ExitRequest { edge: WireEdge::Right, x: 1, y: 2 }),
        vec![5, 9, 0, 9, 1, 0, 0, 0, 1, 0, 0, 0, 2]
    );
    assert_eq!(
        encode_frame(Message::Touch(WireTouchEvent {
            phase: TouchPhase::Cancel,
            id: 1,
            x: 2,
            y: 65_535,
        })),
        vec![5, 11, 0, 9, 3, 0, 0, 0, 1, 0, 2, 255, 255]
    );
}

#[test]
fn every_malformed_frame_names_its_fault() {
    assert_eq!(decode_frame(&[]), Err(ProtocolError::TooShort));
    assert_eq!(decode_frame(&[PROTOCOL_VERSION, 2, 0]), Err(ProtocolError::TooShort));
    assert_eq!(decode_frame(&[PROTOCOL_VERSION, 12, 0, 0]), Err(ProtocolError::UnknownKind(12)));
    assert_eq!(
        decode_frame(&[PROTOCOL_VERSION, KIND_HEARTBEAT, 0, 1]),
        Err(ProtocolError::LengthMismatch { declared: 1, actual: 0 })
    );
    let mut oversized = vec![PROTOCOL_VERSION, KIND_HEARTBEAT, 0, MAX_FRAME_PAYLOAD as u8 + 1];
    oversized.extend_from_slice(&[0; MAX_FRAME_PAYLOAD + 1]);
    assert_eq!(decode_frame(&oversized), Err(ProtocolError::PayloadTooLarge));
    assert_eq!(
        decode_frame(&[PROTOCOL_VERSION, KIND_HEARTBEAT, 0, 1, 9]),
        Err(ProtocolError::InvalidPayloadLength { kind: KIND_HEARTBEAT, actual: 1 })
    );
}

#[test]
fn an_accepted_frame_is_the_frame_of_its_message() {
    let frame = vec![5, 10, 0, 8, 0, 0, 0, 8, 255, 255, 255, 251];
    let message = decode_frame(&frame).unwrap();
    assert_eq!(message, Message::PointerMotion { dx: 8, dy: -5 });
    assert_eq!(encode_frame(message), frame);
}
