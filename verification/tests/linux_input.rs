use cachybridge::backend::{BackendError, BackendErrorKind};
use cachybridge::linux_input::{
    after_queueing, create_sink, device_info, is_allowed_event, is_allowed_key_code,
    is_allowed_relative_code, missing_node, net_zero_report, offered_keys, require_devices,
    self_test_outcome, shutdown_outcome, timed_out, to_wire_event, watch_step, CaptureStep,
    DryRunSink, InputSink, KernelSelfTestReport, Queued, ReportWatch, SelfTestStep, SinkChoice,
    SinkState, WorkerEnd, EV_KEY, EV_REL, EV_SYN, KERNEL_SELF_TEST_TIMEOUT_MS, REL_X, SYN_REPORT,
};
use cachybridge::protocol::WireInputEvent;

fn wire(event_type: u16, code: u16, value: i32) -> WireInputEvent {
    WireInputEvent {
        event_type,
        code,
        value,
    }
}

#[test]
fn rejects_non_input_and_power_management_events() {
    assert!(!is_allowed_event(3, 0, 1)); // EV_ABS
    assert!(!is_allowed_event(EV_KEY, 116, 1)); // KEY_POWER
    assert!(!is_allowed_event(EV_KEY, 142, 1)); // KEY_SLEEP
    assert!(!is_allowed_event(EV_SYN, 3, 0)); // SYN_DROPPED
    assert!(is_allowed_event(EV_REL, REL_X, -42));
    assert!(is_allowed_event(EV_KEY, 30, 1)); // KEY_A
    assert!(is_allowed_event(EV_KEY, 272, 1)); // BTN_LEFT
}

#[test]
fn dry_run_preserves_syn_framing() {
    let mut sink = DryRunSink::new();
    sink.inject(wire(EV_KEY, 30, 1)).unwrap();
    sink.inject(wire(EV_REL, REL_X, 7)).unwrap();
    assert_eq!(sink.report_count(), 0);
    assert!(sink.last_frame().is_none());

    sink.inject(wire(EV_SYN, SYN_REPORT, 0)).unwrap();
    assert_eq!(sink.report_count(), 1);
    assert_eq!(sink.last_frame().unwrap().len(), 2);
    assert!(sink.is_pressed(30));
}

#[test]
fn release_all_emits_releases_and_discards_partial_frame() {
    let mut sink = DryRunSink::new();
    sink.inject(wire(EV_KEY, 30, 1)).unwrap();
    sink.inject(wire(EV_KEY, 272, 1)).unwrap();
    sink.inject(wire(EV_SYN, SYN_REPORT, 0)).unwrap();
    sink.inject(wire(EV_KEY, 48, 1)).unwrap(); // no SYN, never applied

    sink.release_all().unwrap();
    assert_eq!(sink.pressed_codes(), Vec::<u16>::new());
    assert_eq!(sink.report_count(), 2);
    assert_eq!(sink.waiting(), 0);
    let releases = sink.last_frame().unwrap();
    assert_eq!(releases.len(), 2);
    assert!(releases.iter().all(|event| event.value == 0));
    assert!(releases.iter().any(|event| event.code == 30));
    assert!(releases.iter().any(|event| event.code == 272));
}

#[test]
fn invalid_wire_event_is_rejected_without_mutating_pending_frame() {
    let mut sink = DryRunSink::new();
    sink.inject(wire(EV_KEY, 30, 1)).unwrap();
    let result = sink.inject(wire(0x15, 1, 1));
    assert_eq!(result.unwrap_err().kind, BackendErrorKind::InvalidInput);
    assert_eq!(sink.waiting(), 1);
}

#[test]
fn a_frame_counts_only_once_it_is_committed() {
    let mut state = SinkState::default();
    assert!(state.accept(wire(EV_KEY, 30, 1)).unwrap().is_none());
    let frame = state.accept(wire(EV_SYN, SYN_REPORT, 0)).unwrap().unwrap();
    assert_eq!(frame.events(), &vec![wire(EV_KEY, 30, 1)]);
    assert!(!state.pressed(30));
    state.commit(frame);
    assert!(state.pressed(30));
    assert_eq!(state.release_frame(), vec![wire(EV_KEY, 30, 0)]);
    state.released();
    assert!(!state.pressed(30));
    assert_eq!(state.release_frame(), vec![]);
    state.accept(wire(EV_REL, REL_X, 1)).unwrap();
    state.discard();
    assert_eq!(state.waiting(), 0);
}

#[test]
fn codes_are_filtered_by_kind() {
    assert!(is_allowed_key_code(1));
    assert!(!is_allowed_key_code(0));
    assert!(is_allowed_relative_code(8));
    assert!(!is_allowed_relative_code(7));
    assert_eq!(to_wire_event(EV_REL, REL_X, 5), Some(wire(EV_REL, REL_X, 5)));
    assert_eq!(to_wire_event(3, 0, 5), None);
    assert!(offered_keys().iter().all(|code| is_allowed_key_code(*code)));
    assert!(offered_keys().contains(&272));
}

#[test]
fn capture_workers_end_in_their_first_failure() {
    assert_eq!(after_queueing(Queued::Accepted), CaptureStep::Continue);
    assert_eq!(after_queueing(Queued::Disconnected), CaptureStep::Finish);
    match after_queueing(Queued::Full) {
        CaptureStep::Stop(_) => {}
        other => panic!("{other:?}"),
    }
    assert!(require_devices(1).is_ok());
    assert_eq!(require_devices(0).unwrap_err().kind, BackendErrorKind::InvalidInput);
    assert_eq!(shutdown_outcome(vec![WorkerEnd::Done, WorkerEnd::Done]), Ok(()));
    let lost = BackendError::new(BackendErrorKind::NotFound, "lost");
    assert_eq!(
        shutdown_outcome(vec![WorkerEnd::Done, WorkerEnd::Failed(lost.clone())]),
        Err(lost)
    );
    assert!(shutdown_outcome(vec![WorkerEnd::Panicked]).is_err());
}

#[test]
fn the_self_test_report_is_net_zero_and_watched() {
    let report = net_zero_report();
    let sum: i32 = report.iter().map(|event| event.value).sum();
    assert_eq!(sum, 0);
    let mut watch = ReportWatch::new();
    assert_eq!(watch_step(watch, 0, "x"), SelfTestStep::Wait);
    for event in report {
        watch.observe(event, true);
    }
    assert!(!watch.complete());
    watch.observe(wire(EV_SYN, SYN_REPORT, 0), true);
    assert!(watch.complete());
    assert_eq!(watch_step(watch, 0, "x"), SelfTestStep::Complete);
    assert_eq!(
        watch_step(ReportWatch::new(), KERNEL_SELF_TEST_TIMEOUT_MS, "x"),
        SelfTestStep::TimedOut(timed_out("x"))
    );
}

#[test]
fn the_self_test_reports_its_first_failure() {
    let report = KernelSelfTestReport {
        source_node: "/dev/input/event1".to_owned(),
        receiver_node: "/dev/input/event2".to_owned(),
        observed_events: 3,
    };
    assert!(report.text().contains("/dev/input/event2"));
    assert_eq!(self_test_outcome(Ok(report.clone()), Ok(()), Ok(())), Ok(report.clone()));
    let fault = missing_node("source");
    assert_eq!(self_test_outcome(Err(fault.clone()), Ok(()), Ok(())), Err(fault.clone()));
    assert_eq!(self_test_outcome(Ok(report), Err(fault.clone()), Ok(())), Err(fault));
}

#[test]
fn devices_and_sinks_are_described() {
    assert_eq!(device_info("/dev/input/event0".to_owned(), Some("pad".to_owned())).name, "pad");
    assert!(matches!(create_sink(true), SinkChoice::DryRun(_)));
    assert!(matches!(create_sink(false), SinkChoice::Kernel(_)));
}
