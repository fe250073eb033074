use cachybridge::libei_inject::{InputState, Sender, SenderEvent};
use cachybridge::portal::{
    actionable, new_token, optional, optional_restore_token, persistence_message, request_path,
    require_success, required, verify_request_path, Field,
};
use cachybridge::portal_persistence::{PersistenceError, PortalPersistence, RestoreToken};
use cachybridge::portal_probe::{
    graphical_session, json_string, parse_uint32, portal_property, probe, probe_interface,
    property_value, says_true, session_ids, DoctorReport, GraphicalSession, InterfaceProbe,
    ProbeInputs, SessionStep, KEYBOARD, POINTER, TOUCHSCREEN,
};
use cachybridge::portal_spike::{
    capture_signal, choose_barrier, choose_left_barrier, choose_right_barrier, observed_signal,
    required_zones,
    Barrier, CaptureCapabilities, CaptureEdge, CaptureResults, CaptureSetup, CaptureSignal,
    CursorPosition, InputCaptureSession, PortalResponse, SetupStage, SignalOptions, Zone,
    CAP_KEYBOARD, CAP_POINTER,
};
use cachybridge::remote_spike::{
    required_session_path, RemoteDesktopSession, RemoteResponse, RemoteResults, RemoteStage,
    SessionHandle, REQUIRED_DEVICE_TYPES,
};

fn zone(width: u32, height: u32, x: i32, y: i32) -> Zone {
    Zone { width, height, x, y }
}

fn capture_results() -> CaptureResults {
    CaptureResults {
        session_handle: Field::Missing,
        capabilities: Field::Missing,
        zones: Field::Missing,
        zone_set: Field::Missing,
        failed_barriers: Field::Missing,
        restore_token: Field::Missing,
    }
}

fn remote_results() -> RemoteResults {
    RemoteResults {
        session_handle: SessionHandle::Missing,
        devices: Field::Missing,
        restore_token: Field::Missing,
    }
}

fn token(secret: &str) -> RestoreToken {
    match RestoreToken::new(secret) {
        Ok(token) => token,
        Err(error) => panic!("{error:?}"),
    }
}

fn restored(field: Field<String>) -> Option<RestoreToken> {
    match optional_restore_token(field) {
        Ok(token) => token,
        Err(error) => panic!("{error:?}"),
    }
}

#[test]
fn parses_gdbus_uint32_variant() {
    assert_eq!(parse_uint32("(<uint32 7>,)\n"), Some(7));
    assert_eq!(parse_uint32("unexpected"), None);
}

#[test]
fn readiness_requires_version_capabilities_libei_and_wayland() {
    let ready_interface = InterfaceProbe {
        available: true,
        version: Some(2),
        capabilities: Some(KEYBOARD | POINTER | TOUCHSCREEN),
        error: None,
    };
    let report = DoctorReport {
        process_session_type: Some("tty".to_owned()),
        wayland_display: None,
        display: None,
        session_bus_configured: true,
        active_graphical_session: Some(GraphicalSession {
            id: "4".to_owned(),
            session_type: "wayland".to_owned(),
            state: "active".to_owned(),
        }),
        portal_available: true,
        portal_error: None,
        input_capture: ready_interface.clone(),
        remote_desktop: ready_interface,
        libei_version: Some("1.6.0".to_owned()),
    };
    assert!(report.controller_ready());
    assert!(report.follower_ready());
    let without_touch = InterfaceProbe {
        capabilities: Some(KEYBOARD | POINTER),
        ..report.input_capture.clone()
    };
    assert!(!without_touch.supports_shared_input());
    let without_libei = DoctorReport { libei_version: None, ..report.clone() };
    assert!(!without_libei.controller_ready());
    assert!(!without_libei.follower_ready());
}

#[test]
fn json_escapes_external_error_text() {
    assert_eq!(
        json_string("bad \\\"value\"\n"),
        "\"bad \\\\\\\"value\\\"\\n\""
    );
}

#[test]
fn chooses_full_left_edge_of_leftmost_zone() {
    let barrier =
        choose_left_barrier(&[zone(1920, 1080, 0, 0), zone(2560, 1440, -2560, -200)]).unwrap();
    assert_eq!(
        barrier,
        Barrier {
            id: 1,
            x1: -2560,
            y1: -200,
            x2: -2560,
            y2: 1239,
        }
    );
}

#[test]
fn picks_tallest_zone_when_multiple_share_leftmost_edge() {
    let barrier =
        choose_left_barrier(&[zone(100, 50, -100, 0), zone(100, 80, -100, 50)]).unwrap();
    assert_eq!((barrier.y1, barrier.y2), (50, 129));
}

#[test]
fn chooses_full_right_edge_of_rightmost_zone() {
    let barrier =
        choose_right_barrier(&[zone(1920, 1080, 0, 0), zone(1920, 1200, 1920, -100)]).unwrap();
    assert_eq!(
        barrier,
        Barrier {
            id: 1,
            x1: 3840,
            y1: -100,
            x2: 3840,
            y2: 1099,
        }
    );
}

#[test]
fn picks_tallest_zone_when_multiple_share_rightmost_edge() {
    let barrier = choose_right_barrier(&[zone(100, 50, 0, 0), zone(50, 80, 50, 50)]).unwrap();
    assert_eq!((barrier.x1, barrier.y1, barrier.y2), (100, 50, 129));
}

#[test]
fn rejects_empty_and_overflowing_zone_geometry() {
    assert!(choose_left_barrier(&[]).is_err());
    assert!(choose_right_barrier(&[]).is_err());
    assert!(choose_left_barrier(&[zone(100, 2, 0, i32::MAX)]).is_err());
    assert!(choose_right_barrier(&[zone(1, 1, i32::MAX, 0)]).is_err());
}

#[test]
fn capture_profiles_request_expected_portal_bits() {
    assert_eq!(CaptureCapabilities::PointerOnly.bits(), CAP_POINTER);
    assert_eq!(
        CaptureCapabilities::KeyboardPointer.bits(),
        CAP_KEYBOARD | CAP_POINTER
    );
    assert_eq!(CaptureEdge::Left.name(), "left");
    assert_eq!(CaptureEdge::Right.name(), "right");
}

#[test]
fn all_input_is_three_portal_bits() {
    let all = CaptureCapabilities::KeyboardPointerTouch;
    assert_eq!(all.bits(), 7);
    assert_eq!(all.name(), "keyboard+pointer+touch");
}

#[test]
fn response_codes_have_actionable_meaning() {
    assert!(require_success("Start", 0).is_ok());
    assert!(require_success("Start", 1).unwrap_err().message.contains("cancelled"));
    assert!(require_success("Start", 2).unwrap_err().message.contains("portal"));
    assert!(require_success("Start", 99).unwrap_err().message.contains("unknown"));
}

#[test]
fn parses_portal_zone_tuple_array() {
    let results = CaptureResults {
        zones: Field::Value(vec![zone(5120, 2880, -5120, 0)]),
        ..capture_results()
    };
    assert_eq!(required_zones(results).unwrap(), vec![zone(5120, 2880, -5120, 0)]);
    assert!(required_zones(capture_results()).is_err());
}

#[test]
fn parses_replacement_restore_token_without_logging_it() {
    let token = restored(Field::Value("replacement-secret".to_owned())).unwrap();
    assert_eq!(token.expose_secret(), "replacement-secret");
    assert!(!token.redacted().contains("replacement-secret"));
    assert!(restored(Field::Missing).is_none());
}

#[test]
fn parses_spec_compatible_string_session_handle() {
    let expected = "/org/freedesktop/portal/desktop/session/1_5/test";
    assert_eq!(
        required_session_path(SessionHandle::Text(expected.to_owned())).unwrap(),
        expected
    );
    assert!(required_session_path(SessionHandle::Missing).is_err());
    for text in ["", "no/slash", "/double//slash", "/ends/", "/da-sh", "/caf\u{e9}"] {
        let error = required_session_path(SessionHandle::Text(text.to_owned())).unwrap_err();
        assert!(error.message.starts_with("session_handle is not an object path: "));
    }
    assert_eq!(required_session_path(SessionHandle::Text("/".to_owned())).unwrap(), "/");
}

#[test]
fn remote_response_codes_are_actionable() {
    assert!(require_success("Start", 0).is_ok());
    assert!(require_success("Start", 1).unwrap_err().message.contains("cancelled"));
    assert!(require_success("Start", 2).unwrap_err().message.contains("portal"));
}

#[test]
fn parses_replacement_restore_token_as_a_secret() {
    let token = restored(Field::Value("next-token".to_owned())).unwrap();
    assert_eq!(token.expose_secret(), "next-token");
    assert_eq!(token.redacted(), "RestoreToken([REDACTED])");
    assert!(restored(Field::Missing).is_none());
}

#[test]
fn fields_are_read_by_presence_and_type() {
    assert_eq!(optional(Field::Value(3), "k"), Ok(Some(3)));
    assert_eq!(optional::<u32>(Field::Missing, "k"), Ok(None));
    assert_eq!(required(Field::Value(3), "k"), Ok(3));
    assert!(required::<u32>(Field::Missing, "k").unwrap_err().message.contains("k"));
    assert!(optional::<u32>(Field::WrongType("s".to_owned()), "k").is_err());
    assert_eq!(actionable("words").message, "words");
    assert!(persistence_message(&PersistenceError::TokenTooLong(16_385)).contains("16385"));
    match optional_restore_token(Field::Value(String::new())) {
        Err(_) => {}
        Ok(_) => panic!("an empty token was accepted"),
    }
}

#[test]
fn request_paths_follow_the_unique_name() {
    assert_eq!(
        request_path(":1.42", "tok").unwrap(),
        "/org/freedesktop/portal/desktop/request/1_42/tok"
    );
    assert!(request_path(":1.42", "bad-token").is_err());
    assert!(verify_request_path("/a", "/a").is_ok());
    assert!(verify_request_path("/a", "/b").is_err());
    let first = new_token("cb");
    assert!(first.starts_with("cb"));
    assert_ne!(first, new_token("cb"));
}

#[test]
fn a_capture_session_is_set_up_step_by_step() {
    let mut setup = InputCaptureSession::start_left_with_persistence(
        PortalPersistence::persistent(Some(token("old"))),
    );
    assert_eq!(setup.stage(), SetupStage::Session);
    setup.session_type(Some("wayland".to_owned())).unwrap();
    setup.properties(2, CAP_KEYBOARD | CAP_POINTER).unwrap();
    let (path, options) = setup
        .created(
            CaptureResults {
                session_handle: Field::Value("/session".to_owned()),
                ..capture_results()
            },
            "h".to_owned(),
        )
        .unwrap();
    assert_eq!(path, "/session");
    assert_eq!(options.capabilities, CAP_KEYBOARD | CAP_POINTER);
    assert_eq!(options.persist_mode, Some(2));
    assert_eq!(options.restore_token, Some("old".to_owned()));
    setup
        .started(PortalResponse {
            code: 0,
            results: CaptureResults {
                capabilities: Field::Value(CAP_KEYBOARD | CAP_POINTER),
                restore_token: Field::Value("new".to_owned()),
                ..capture_results()
            },
        })
        .unwrap();
    let barriers = setup
        .zones(
            PortalResponse {
                code: 0,
                results: CaptureResults {
                    zones: Field::Value(vec![zone(1920, 1080, 0, 0)]),
                    zone_set: Field::Value(9),
                    ..capture_results()
                },
            },
            "b".to_owned(),
        )
        .unwrap();
    assert_eq!(barriers.zone_set, 9);
    assert_eq!(
        barriers.barrier,
        choose_barrier(CaptureEdge::Left, &[zone(1920, 1080, 0, 0)]).unwrap()
    );
    setup
        .barriers_set(PortalResponse {
            code: 0,
            results: CaptureResults {
                failed_barriers: Field::Value(Vec::new()),
                ..capture_results()
            },
        })
        .unwrap();
    setup.connected();
    let mut session = setup.enabled();
    assert_eq!(session.edge(), CaptureEdge::Left);
    assert_eq!(session.take_restore_token().unwrap().expose_secret(), "new");
    assert!(session.restore_token().is_none());
    assert!(session.close());
    session.closed();
    assert!(!session.close());
}

#[test]
fn a_capture_session_needs_wayland_and_its_capabilities() {
    let mut setup = CaptureSetup::begin(
        CaptureEdge::Right,
        CaptureCapabilities::KeyboardPointer,
        PortalPersistence::disabled(),
    );
    assert!(setup.session_type(Some("x11".to_owned())).is_err());
    setup.session_type(Some("wayland".to_owned())).unwrap();
    assert!(setup.properties(2, CAP_POINTER).is_err());
}

#[test]
fn signals_are_read_by_name() {
    let options = SignalOptions {
        activation_id: Some(4),
        barrier_id: Some(1),
        zone_set: Some(2),
        cursor_position: CursorPosition::At { y: 7 },
    };
    assert_eq!(
        capture_signal("Activated", options.clone()),
        CaptureSignal::Activated {
            activation_id: 4,
            barrier_id: Some(1),
            cursor_position: CursorPosition::At { y: 7 },
        }
    );
    assert_eq!(
        capture_signal("Deactivated", options.clone()),
        CaptureSignal::Deactivated { activation_id: Some(4) }
    );
    assert_eq!(capture_signal("Disabled", options.clone()), CaptureSignal::Disabled);
    assert_eq!(
        capture_signal("ZonesChanged", options.clone()),
        CaptureSignal::ZonesChanged { zone_set: Some(2) }
    );
    assert_eq!(
        capture_signal("Odd", options.clone()),
        CaptureSignal::Other { member: "Odd".to_owned() }
    );
    assert_eq!(
        observed_signal("/s", "Disabled", Some(("/s".to_owned(), options.clone()))),
        Some(CaptureSignal::Disabled)
    );
    assert_eq!(observed_signal("/s", "Disabled", Some(("/other".to_owned(), options.clone()))), None);
    assert_eq!(
        observed_signal("/s", "Disabled", None),
        Some(CaptureSignal::Other {
            member: "Disabled: could not decode signal payload".to_owned()
        })
    );
}

#[test]
fn a_remote_session_is_set_up_and_closed_once() {
    let mut setup = RemoteDesktopSession::start_with_persistence(PortalPersistence::disabled());
    assert_eq!(setup.stage(), RemoteStage::Properties);
    assert!(setup.properties(2, 1).is_err());
    setup.properties(2, REQUIRED_DEVICE_TYPES).unwrap();
    let (path, options) = setup
        .created(
            RemoteResponse {
                code: 0,
                results: RemoteResults {
                    session_handle: SessionHandle::ObjectPath("/s".to_owned()),
                    ..remote_results()
                },
            },
            "h".to_owned(),
        )
        .unwrap();
    assert_eq!(path, "/s");
    assert_eq!(options.types, REQUIRED_DEVICE_TYPES);
    setup.selected(0).unwrap();
    setup
        .started(RemoteResponse {
            code: 0,
            results: RemoteResults {
                devices: Field::Value(REQUIRED_DEVICE_TYPES),
                ..remote_results()
            },
        })
        .unwrap();
    let mut session = setup.connected(Sender::new());
    assert!(session.inject_key(30, InputState::Pressed).is_err());
    assert!(session.pointer_test_outcome().is_ok());
    session.process_event("EI_EVENT_DISCONNECT".to_owned(), SenderEvent::Disconnect).unwrap();
    assert!(session.pointer_test_outcome().is_err());
    assert_eq!(session.close(), (vec![], vec![], true));
    session.closed();
    assert_eq!(session.close(), (vec![], vec![], false));
    assert!(session.process_event("late".to_owned(), SenderEvent::Connect).is_err());
    assert!(session.inject_relative(1, 1).is_err());
}

#[test]
fn the_probe_reads_the_replies_of_the_desktop() {
    assert!(says_true("(true,)\n"));
    assert!(!says_true("(false,)\n"));
    assert_eq!(portal_property(Ok("(<uint32 3>,)".to_owned())), Ok(3));
    assert_eq!(portal_property(Err("no".to_owned())), Err("no".to_owned()));
    let missing = probe_interface(Err("no".to_owned()), Ok(7));
    assert!(!missing.available);
    assert_eq!(missing.error, Some("no".to_owned()));
    assert_eq!(session_ids("4 1000 me seat0\n5 1001 you seat1\n", "1000"), vec!["4".to_owned()]);
    assert_eq!(property_value("Type=wayland\nState=active\n", "State"), Some("active".to_owned()));
    assert_eq!(
        graphical_session("4".to_owned(), "Type=wayland\nState=active\nRemote=no\n"),
        SessionStep::Found(GraphicalSession {
            id: "4".to_owned(),
            session_type: "wayland".to_owned(),
            state: "active".to_owned(),
        })
    );
    let report = probe(ProbeInputs {
        process_session_type: Some("wayland".to_owned()),
        wayland_display: Some("wayland-0".to_owned()),
        display: None,
        session_bus_address: Some("unix:path=/run/bus".to_owned()),
        active_graphical_session: None,
        portal_owner: Ok("(true,)".to_owned()),
        input_capture_version: Ok("(<uint32 2>,)".to_owned()),
        input_capture_capabilities: Ok("(<uint32 7>,)".to_owned()),
        remote_desktop_version: Ok("(<uint32 2>,)".to_owned()),
        remote_desktop_capabilities: Ok("(<uint32 3>,)".to_owned()),
        libei: Some("1.6.0".to_owned()),
    });
    assert!(report.session_bus_configured);
    assert!(report.portal_available);
    assert!(report.controller_ready());
    assert!(!report.follower_ready());
    assert!(report.to_json().contains("\"wayland-0\""));
    assert!(!report.human_text().is_empty());
}

#[test]
fn reports_have_their_exact_text() {
    let report = DoctorReport {
        process_session_type: Some("tty".to_owned()),
        wayland_display: None,
        display: Some(":0".to_owned()),
        session_bus_configured: true,
        active_graphical_session: Some(GraphicalSession {
            id: "4".to_owned(),
            session_type: "wayland".to_owned(),
            state: "active".to_owned(),
        }),
        portal_available: false,
        portal_error: Some("no \"owner\"".to_owned()),
        input_capture: InterfaceProbe {
            available: true,
            version: Some(2),
            capabilities: Some(5),
            error: None,
        },
        remote_desktop: InterfaceProbe {
            available: false,
            version: None,
            capabilities: None,
            error: Some("gone".to_owned()),
        },
        libei_version: None,
    };
    assert_eq!(
        report.human_text(),
        "CachyBridge Wayland capability probe\n\
         process session: tty (WAYLAND_DISPLAY=not set, DISPLAY=:0)\n\
         active graphical session: wayland (id=4, state=active)\n\
         session bus: configured\n\
         desktop portal: no (no \"owner\")\n\
         InputCapture: yes version=2 SupportedCapabilities=5 keyboard=yes pointer=no touchscreen=yes\n\
         RemoteDesktop: no version=unknown AvailableDeviceTypes=unknown keyboard=no pointer=no touchscreen=no (gone)\n\
         libei: not detected\n\
         controller role ready: no\n\
         follower role ready: no\n\
         scope: read-only capability check; portal consent, sessions, barriers, and EIS handshakes were not attempted\n"
    );
    assert_eq!(
        report.to_json(),
        "{\n  \"process_session_type\": \"tty\",\n  \"wayland_display\": null,\n  \
         \"display\": \":0\",\n  \"session_bus_configured\": true,\n  \
         \"active_graphical_session\": {\"id\": \"4\", \"type\": \"wayland\", \"state\": \"active\"},\n  \
         \"portal_available\": false,\n  \"portal_error\": \"no \\\"owner\\\"\",\n  \
         \"input_capture\": {\n    \"available\": true,\n    \"version\": 2,\n    \
         \"capabilities\": 5,\n    \"keyboard\": true,\n    \"pointer\": false,\n    \
         \"touchscreen\": true,\n    \"error\": null\n  },\n  \
         \"remote_desktop\": {\n    \"available\": false,\n    \"version\": null,\n    \
         \"capabilities\": null,\n    \"keyboard\": false,\n    \"pointer\": false,\n    \
         \"touchscreen\": false,\n    \"error\": \"gone\"\n  },\n  \
         \"libei_version\": null,\n  \"controller_ready\": false,\n  \
         \"follower_ready\": false,\n  \
         \"probe_scope\": \"read-only; no portal sessions or consent prompts\"\n}"
    );
    assert_eq!(json_string("\u{1}\u{7f}\u{9f}\r\t"), "\"\\u0001\\u007f\\u009f\\r\\t\"");
}

#[test]
fn right_edge_sessions_capture_the_pointer_alone() {
    for (mut setup, secret) in [
        (InputCaptureSession::start_right(), None),
        (
            InputCaptureSession::start_right_with_persistence(PortalPersistence::persistent(Some(
                token("kept"),
            ))),
            Some("kept".to_owned()),
        ),
    ] {
        setup.session_type(Some("wayland".to_owned())).unwrap();
        setup.properties(2, CAP_POINTER).unwrap();
        let (_, options) = setup
            .created(
                CaptureResults {
                    session_handle: Field::Value("/session".to_owned()),
                    ..capture_results()
                },
                "h".to_owned(),
            )
            .unwrap();
        assert_eq!(options.capabilities, CAP_POINTER);
        assert_eq!(options.restore_token, secret);
    }
}
