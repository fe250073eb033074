//! Which kernel input events may cross the network, and what a receiver of
//! them holds.
//!
//! Only ordinary keyboard, mouse-button and relative-pointer events are
//! accepted. Device-management events, LEDs, force feedback, absolute axes and
//! power-management keys never pass.
use std::collections::BTreeSet;

use vstd::prelude::*;

use crate::backend::{BackendError, BackendErrorKind};
use crate::codes::{has_code, held_codes, insert_code, remove_code, KEY_MAX};
use crate::protocol::WireInputEvent;
use crate::text::push_decimal;

verus! {

pub const EV_SYN: u16 = 0;

pub const EV_KEY: u16 = 1;

pub const EV_REL: u16 = 2;

pub const SYN_REPORT: u16 = 0;

pub const REL_X: u16 = 0;

pub const REL_Y: u16 = 1;

pub const REL_HWHEEL: u16 = 6;

pub const REL_WHEEL: u16 = 8;

pub const REL_WHEEL_HI_RES: u16 = 11;

pub const REL_HWHEEL_HI_RES: u16 = 12;

pub const BTN_MOUSE_FIRST: u16 = 0x110;

pub const BTN_MOUSE_LAST: u16 = 0x117;

/// Time that each half of the kernel self-test has.
pub const KERNEL_SELF_TEST_TIMEOUT_MS: u64 = 2_000;

/// A capture candidate shown to the user.
#[derive(Debug, Clone, PartialEq, Eq)]
pub struct InputDeviceInfo {
    pub path: String,
    pub name: String,
}

/// The entry for a device.
pub fn device_info(path: String, name: Option<String>) -> (info: InputDeviceInfo)
    ensures
        info.path@ == path@,
        info.name@ == match name {
            Some(name) => name@,
            None => "unnamed input device"@,
        },
{
    InputDeviceInfo {
        path,
        name: match name {
            Some(name) => name,
            None => "unnamed input device".to_string(),
        },
    }
}

/// Standard keyboard controls without power, sleep and wakeup, and the
/// ordinary mouse buttons. Tablet, joystick and gamepad controls are outside.
pub open spec fn allowed_key(code: u16) -> bool {
    ||| 1 <= code <= 115
    ||| 117 <= code <= 140
    ||| 150 <= code <= 204
    ||| 206 <= code <= 246
    ||| code == 248
    ||| BTN_MOUSE_FIRST <= code <= BTN_MOUSE_LAST
}

pub fn is_allowed_key_code(code: u16) -> (allowed: bool)
    ensures
        allowed == allowed_key(code),
{
    (1 <= code && code <= 115) || (117 <= code && code <= 140) || (150 <= code && code <= 204) || (
    206 <= code && code <= 246) || code == 248 || (BTN_MOUSE_FIRST <= code && code
        <= BTN_MOUSE_LAST)
}

pub open spec fn allowed_relative(code: u16) -> bool {
    code == REL_X || code == REL_Y || code == REL_HWHEEL || code == REL_WHEEL || code
        == REL_WHEEL_HI_RES || code == REL_HWHEEL_HI_RES
}

pub fn is_allowed_relative_code(code: u16) -> (allowed: bool)
    ensures
        allowed == allowed_relative(code),
{
    code == REL_X || code == REL_Y || code == REL_HWHEEL || code == REL_WHEEL || code
        == REL_WHEEL_HI_RES || code == REL_HWHEEL_HI_RES
}

pub open spec fn allowed(event: WireInputEvent) -> bool {
    if event.event_type == EV_SYN {
        event.code == SYN_REPORT && event.value == 0
    } else if event.event_type == EV_KEY {
        allowed_key(event.code) && 0 <= event.value <= 2
    } else if event.event_type == EV_REL {
        allowed_relative(event.code)
    } else {
        false
    }
}

pub fn is_allowed_event(event_type: u16, code: u16, value: i32) -> (ok: bool)
    ensures
        ok == allowed(WireInputEvent { event_type, code, value }),
{
    match event_type {
        EV_SYN => code == SYN_REPORT && value == 0,
        EV_KEY => is_allowed_key_code(code) && 0 <= value && value <= 2,
        EV_REL => is_allowed_relative_code(code),
        _ => false,
    }
}

/// A kernel event as it goes over the wire, if it may.
pub fn to_wire_event(event_type: u16, code: u16, value: i32) -> (event: Option<WireInputEvent>)
    ensures
        event == if allowed(WireInputEvent { event_type, code, value }) {
            Some(WireInputEvent { event_type, code, value })
        } else {
            None
        },
{
    if !is_allowed_event(event_type, code, value) {
        return None;
    }
    Some(WireInputEvent { event_type, code, value })
}

/// What handing an event to a bounded queue led to.
#[derive(Debug, Clone, Copy, PartialEq, Eq, Structural)]
pub enum Queued {
    Accepted,
    Full,
    Disconnected,
}

/// What a capture worker does after handing an event on.
#[derive(Debug, PartialEq, Eq)]
pub enum CaptureStep {
    Continue,
    /// The receiver is gone; that is a normal end.
    Finish,
    /// Every worker stops: an ordered transition must not be dropped silently.
    Stop(BackendError),
}

pub fn after_queueing(queued: Queued) -> (step: CaptureStep)
    ensures
        match queued {
            Queued::Accepted => step == CaptureStep::Continue,
            Queued::Disconnected => step == CaptureStep::Finish,
            Queued::Full => step matches CaptureStep::Stop(error) && error.says(
                BackendErrorKind::WouldBlock,
                "bounded input queue is full"@,
            ),
        },
{
    match queued {
        Queued::Accepted => CaptureStep::Continue,
        Queued::Disconnected => CaptureStep::Finish,
        Queued::Full => CaptureStep::Stop(
            BackendError::new(BackendErrorKind::WouldBlock, "bounded input queue is full"),
        ),
    }
}

/// Capture needs a device to read from.
pub fn require_devices(count: usize) -> (result: Result<(), BackendError>)
    ensures
        if count > 0 {
            result is Ok
        } else {
            result matches Err(error) && error.says(
                BackendErrorKind::InvalidInput,
                "at least one /dev/input/event device is required"@,
            )
        },
{
    if count == 0 {
        return Err(
            BackendError::new(
                BackendErrorKind::InvalidInput,
                "at least one /dev/input/event device is required",
            ),
        );
    }
    Ok(())
}

/// How a capture worker ended.
#[derive(Debug, PartialEq, Eq)]
pub enum WorkerEnd {
    Done,
    Failed(BackendError),
    Panicked,
}

/// Whether worker `i` is the first that did not end well.
pub open spec fn is_first_failure(ends: Seq<WorkerEnd>, i: int) -> bool {
    &&& 0 <= i < ends.len()
    &&& ends[i] !is Done
    &&& forall|j: int| 0 <= j < i ==> (#[trigger] ends[j]) is Done
}

/// The outcome of stopping all workers: the failure of the first one that did
/// not end well.
pub fn shutdown_outcome(ends: Vec<WorkerEnd>) -> (result: Result<(), BackendError>)
    ensures
        match result {
            Ok(_) => forall|i: int| 0 <= i < ends@.len() ==> (#[trigger] ends@[i]) is Done,
            Err(error) => exists|i: int| #[trigger]
                is_first_failure(ends@, i) && match ends@[i] {
                    WorkerEnd::Failed(failure) => error == failure,
                    _ => error.says(
                        BackendErrorKind::Other,
                        "input capture thread panicked"@,
                    ),
                },
        },
{
    let mut rest = ends;
    let mut first: Option<BackendError> = None;
    let ghost all = ends@;
    assert(all.take(all.len() as int) =~= all);
    // Walking backwards, the last failure met is the first one.
    while rest.len() > 0
        invariant
            rest@ == all.take(rest@.len() as int),
            rest@.len() <= all.len(),
            match first {
                None => forall|i: int|
                    rest@.len() <= i < all.len() ==> (#[trigger] all[i]) is Done,
                Some(error) => exists|i: int| #[trigger]
                    fails_at(all, i, error) && rest@.len() <= i && forall|j: int|
                        rest@.len() <= j < i ==> (#[trigger] all[j]) is Done,
            },
        decreases rest.len(),
    {
        let ghost at = rest@.len() - 1;
        let end = rest.pop();
        assert(rest@ =~= all.take(at));
        match end {
            Some(WorkerEnd::Failed(error)) => {
                assert(fails_at(all, at, error));
                first = Some(error);
            },
            Some(WorkerEnd::Panicked) => {
                let error = BackendError::new(
                    BackendErrorKind::Other,
                    "input capture thread panicked",
                );
                assert(fails_at(all, at, error));
                first = Some(error);
            },
            _ => {
                assert(all[at] is Done);
            },
        }
    }
    match first {
        Some(error) => {
            proof {
                let i = choose|i: int| #[trigger]
                    fails_at(all, i, error) && 0 <= i && forall|j: int|
                        0 <= j < i ==> (#[trigger] all[j]) is Done;
                assert(is_first_failure(all, i));
            }
            Err(error)
        },
        None => Ok(()),
    }
}

/// Whether worker `i` failed with this error.
pub open spec fn fails_at(ends: Seq<WorkerEnd>, i: int, error: BackendError) -> bool {
    0 <= i < ends.len() && match ends[i] {
        WorkerEnd::Done => false,
        WorkerEnd::Failed(failure) => error == failure,
        WorkerEnd::Panicked => error.says(
            BackendErrorKind::Other,
            "input capture thread panicked"@,
        ),
    }
}

/// What a sink knows.
pub struct SinkView {
    /// Events of the report that is not complete yet.
    pub pending: Seq<WireInputEvent>,
    /// Keys and buttons that are down.
    pub pressed: Set<u16>,
}

/// The keys that are down after one event.
pub open spec fn press(pressed: Set<u16>, event: WireInputEvent) -> Set<u16> {
    if event.event_type == EV_KEY && event.value == 0 {
        pressed.remove(event.code)
    } else if event.event_type == EV_KEY && event.value == 1 {
        pressed.insert(event.code)
    } else {
        pressed
    }
}

/// The keys that are down after a report.
pub open spec fn pressed_after(pressed: Set<u16>, events: Seq<WireInputEvent>) -> Set<u16>
    decreases events.len(),
{
    if events.len() == 0 {
        pressed
    } else {
        press(pressed_after(pressed, events.drop_last()), events.last())
    }
}

impl SinkView {
    pub open spec fn empty() -> SinkView {
        SinkView { pending: Seq::empty(), pressed: Set::empty() }
    }

    /// Nothing waits and nothing is held that could not be let through.
    pub open spec fn wf(self) -> bool {
        &&& forall|i: int|
            0 <= i < self.pending.len() ==> allowed(#[trigger] self.pending[i])
                && self.pending[i].event_type != EV_SYN
        &&& forall|code: u16| #[trigger] self.pressed.contains(code) ==> allowed_key(code)
    }
}

pub open spec fn refusal_text(event: WireInputEvent) -> Seq<char> {
    "refusing input event type="@ + crate::text::decimal(event.event_type as nat) + " code="@
        + crate::text::decimal(event.code as nat) + " value="@ + crate::adapter::signed(
        event.value as int,
    )
}

fn refusal(event: WireInputEvent) -> (error: BackendError)
    ensures
        error.says(BackendErrorKind::InvalidInput, refusal_text(event)),
{
    let mut message = String::new();
    message.push_str("refusing input event type=");
    push_decimal(&mut message, event.event_type as u64);
    message.push_str(" code=");
    push_decimal(&mut message, event.code as u64);
    message.push_str(" value=");
    if event.value < 0 {
        message.push_str("-");
        push_decimal(&mut message, (-(event.value as i64)) as u64);
    } else {
        push_decimal(&mut message, event.value as u64);
    }
    assert(message@ =~= refusal_text(event));
    BackendError { kind: BackendErrorKind::InvalidInput, message }
}

/// A complete report with the keys that are down once it was emitted.
pub struct PendingFrame {
    events: Vec<WireInputEvent>,
    next_pressed: BTreeSet<u16>,
}

impl PendingFrame {
    pub closed spec fn report(&self) -> Seq<WireInputEvent> {
        self.events@
    }

    pub closed spec fn down(&self) -> Set<u16> {
        self.next_pressed@
    }

    pub fn events(&self) -> (events: &Vec<WireInputEvent>)
        ensures
            events@ == self.report(),
    {
        &self.events
    }
}

/// Groups events into reports and follows what is down.
pub struct SinkState {
    pending: Vec<WireInputEvent>,
    pressed: BTreeSet<u16>,
}

impl View for SinkState {
    type V = SinkView;

    closed spec fn view(&self) -> SinkView {
        SinkView { pending: self.pending@, pressed: self.pressed@ }
    }
}

impl Default for SinkState {
    fn default() -> (state: Self)
        ensures
            state@ == SinkView::empty(),
            state@.wf(),
    {
        SinkState { pending: Vec::new(), pressed: BTreeSet::new() }
    }
}

impl SinkState {
    /// Takes in one event. A report marker completes the events before it;
    /// what is down changes when that report is committed.
    pub fn accept(&mut self, event: WireInputEvent) -> (result: Result<
        Option<PendingFrame>,
        BackendError,
    >)
        requires
            old(self)@.wf(),
        ensures
            final(self)@.wf(),
            final(self)@.pressed == old(self)@.pressed,
            if !allowed(event) {
                &&& final(self)@ == old(self)@
                &&& result matches Err(error) && error.says(
                    BackendErrorKind::InvalidInput,
                    refusal_text(event),
                )
            } else if event.event_type == EV_SYN {
                &&& final(self)@.pending.len() == 0
                &&& result matches Ok(Some(frame)) && frame.report() == old(self)@.pending
                    && frame.down() == pressed_after(old(self)@.pressed, old(self)@.pending)
            } else {
                &&& final(self)@.pending == old(self)@.pending.push(event)
                &&& result matches Ok(None)
            },
    {
        if !is_allowed_event(event.event_type, event.code, event.value) {
            return Err(refusal(event));
        }
        if event.event_type == EV_SYN {
            let mut events: Vec<WireInputEvent> = Vec::new();
            std::mem::swap(&mut events, &mut self.pending);
            let mut next_pressed = self.pressed.clone();
            let mut i: usize = 0;
            while i < events.len()
                invariant
                    i <= events.len(),
                    next_pressed@ == pressed_after(self.pressed@, events@.take(i as int)),
                decreases events.len() - i,
            {
                proof {
                    let next = events@.take(i + 1);
                    assert(next.drop_last() =~= events@.take(i as int));
                    assert(next.last() == events@[i as int]);
                }
                let event = events[i];
                if event.event_type == EV_KEY {
                    if event.value == 0 {
                        remove_code(&mut next_pressed, event.code);
                    } else if event.value == 1 {
                        insert_code(&mut next_pressed, event.code);
                    }
                }
                assert(next_pressed@ =~= pressed_after(self.pressed@, events@.take(i + 1)));
                i = i + 1;
            }
            assert(events@.take(i as int) =~= events@);
            assert forall|code: u16| #[trigger] self@.pressed.contains(code) implies allowed_key(
                code,
            ) by {
                assert(old(self)@.pressed.contains(code));
            }
            return Ok(Some(PendingFrame { events, next_pressed }));
        }
        self.pending.push(event);
        assert forall|i: int| 0 <= i < self@.pending.len() implies allowed(
            #[trigger] self@.pending[i],
        ) && self@.pending[i].event_type != EV_SYN by {
            if i < old(self)@.pending.len() {
                assert(self@.pending[i] == old(self)@.pending[i]);
            }
        }
        assert forall|code: u16| #[trigger] self@.pressed.contains(code) implies allowed_key(
            code,
        ) by {
            assert(old(self)@.pressed.contains(code));
        }
        Ok(None)
    }

    /// Notes that a report was emitted.
    pub fn commit(&mut self, frame: PendingFrame)
        requires
            old(self)@.wf(),
            forall|code: u16| #[trigger] frame.down().contains(code) ==> allowed_key(code),
        ensures
            final(self)@ == (SinkView { pressed: frame.down(), ..old(self)@ }),
            final(self)@.wf(),
    {
        self.pressed = frame.next_pressed;
        assert forall|code: u16| #[trigger] self@.pressed.contains(code) implies allowed_key(
            code,
        ) by {
            assert(frame.down().contains(code));
        }
        assert forall|i: int| 0 <= i < self@.pending.len() implies allowed(
            #[trigger] self@.pending[i],
        ) && self@.pending[i].event_type != EV_SYN by {
            assert(self@.pending[i] == old(self)@.pending[i]);
        }
    }

    /// Drops the events of a report that was never completed.
    pub fn discard(&mut self)
        ensures
            final(self)@ == (SinkView { pending: Seq::empty(), ..old(self)@ }),
            old(self)@.wf() ==> final(self)@.wf(),
    {
        self.pending = Vec::new();
        assert(self@.pending =~= Seq::empty());
    }

    /// The codes that are down, in rising order.
    pub fn pressed_codes(&self) -> (codes: Vec<u16>)
        ensures
            codes@ == crate::codes::held(self@.pressed),
    {
        held_codes(&self.pressed)
    }

    /// The events that let go of everything that is down.
    pub fn release_frame(&self) -> (frame: Vec<WireInputEvent>)
        requires
            self@.wf(),
        ensures
            frame@ == release_events(self@.pressed),
    {
        let mut frame: Vec<WireInputEvent> = Vec::new();
        let codes = held_codes(&self.pressed);
        let ghost all = release_events(self@.pressed);
        let mut i: usize = 0;
        assert(all.take(0) =~= Seq::<WireInputEvent>::empty());
        while i < codes.len()
            invariant
                i <= codes.len(),
                codes@ == crate::codes::held(self@.pressed),
                all == release_events(self@.pressed),
                frame@ == all.take(i as int),
            decreases codes.len() - i,
        {
            frame.push(WireInputEvent { event_type: EV_KEY, code: codes[i], value: 0 });
            assert(all.take(i + 1) =~= all.take(i as int).push(all[i as int]));
            i = i + 1;
        }
        assert(all.take(i as int) =~= all);
        frame
    }

    /// Notes that everything was let go of.
    pub fn released(&mut self)
        ensures
            final(self)@ == (SinkView { pressed: Set::empty(), ..old(self)@ }),
            old(self)@.wf() ==> final(self)@.wf(),
    {
        self.pressed.clear();
    }

    /// Whether a key or button is down.
    pub fn pressed(&self, code: u16) -> (down: bool)
        ensures
            down == self@.pressed.contains(code),
    {
        has_code(&self.pressed, code)
    }

    /// Number of events that wait for their report to be completed.
    pub fn waiting(&self) -> (count: usize)
        ensures
            count == self@.pending.len(),
    {
        self.pending.len()
    }
}

/// Releases of everything in a set, in rising order of their codes.
pub open spec fn release_events(pressed: Set<u16>) -> Seq<WireInputEvent> {
    crate::codes::held(pressed).map_values(
        |code: u16| WireInputEvent { event_type: EV_KEY, code, value: 0 },
    )
}

/// A report that waits leads only to allowed keys being down.
pub proof fn lemma_pressed_allowed(pressed: Set<u16>, events: Seq<WireInputEvent>)
    requires
        forall|i: int| 0 <= i < events.len() ==> allowed(#[trigger] events[i]),
        forall|code: u16| #[trigger] pressed.contains(code) ==> allowed_key(code),
    ensures
        forall|code: u16| #[trigger]
            pressed_after(pressed, events).contains(code) ==> allowed_key(code),
    decreases events.len(),
{
    if events.len() > 0 {
        let rest = events.drop_last();
        assert(forall|i: int| 0 <= i < rest.len() ==> rest[i] == events[i]);
        lemma_pressed_allowed(pressed, rest);
        assert(allowed(events[events.len() - 1]));
        let before = pressed_after(pressed, rest);
        assert forall|code: u16| #[trigger]
            pressed_after(pressed, events).contains(code) implies allowed_key(code) by {
            assert(before.contains(code) || code == events.last().code);
        }
    }
}

/// Emitting the release events leaves nothing down.
pub proof fn law_release_lets_everything_go(sink: SinkView)
    requires
        sink.wf(),
    ensures
        pressed_after(sink.pressed, release_events(sink.pressed)) == Set::<u16>::empty(),
        forall|i: int|
            0 <= i < release_events(sink.pressed).len() ==> allowed(
                #[trigger] release_events(sink.pressed)[i],
            ) && release_events(sink.pressed)[i].value == 0,
        release_events(sink.pressed).len() == 0 <==> sink.pressed == Set::<u16>::empty(),
{
    let held = crate::codes::held(sink.pressed);
    let events = release_events(sink.pressed);
    crate::codes::law_held_names_every_code(sink.pressed);
    assert forall|i: int| 0 <= i < events.len() implies allowed(#[trigger] events[i])
        && events[i].value == 0 by {
        assert(held.to_set().contains(held[i]));
    }
    lemma_released(sink.pressed, held);
    assert forall|code: u16| !pressed_after(sink.pressed, events).contains(code) by {
        if pressed_after(sink.pressed, events).contains(code) {
            assert(sink.pressed.contains(code) && !held.contains(code));
            assert(held.to_set().contains(code));
        }
    }
    assert(pressed_after(sink.pressed, events) =~= Set::empty());
    if events.len() == 0 {
        assert forall|code: u16| !sink.pressed.contains(code) by {
            if sink.pressed.contains(code) {
                assert(held.to_set().contains(code));
                assert(held.contains(code));
            }
        }
        assert(sink.pressed =~= Set::empty());
    }
    if sink.pressed == Set::<u16>::empty() && held.len() > 0 {
        assert(held.to_set().contains(held[0]));
    }
}

proof fn lemma_released(pressed: Set<u16>, codes: Seq<u16>)
    ensures
        forall|code: u16|
            #![auto]
            pressed_after(
                pressed,
                codes.map_values(
                    |code: u16| WireInputEvent { event_type: EV_KEY, code, value: 0 },
                ),
            ).contains(code) ==> pressed.contains(code) && !codes.contains(code),
    decreases codes.len(),
{
    let turn = |code: u16| WireInputEvent { event_type: EV_KEY, code, value: 0 };
    let events = codes.map_values(turn);
    if codes.len() > 0 {
        let rest = codes.drop_last();
        lemma_released(pressed, rest);
        assert(events.drop_last() =~= rest.map_values(turn));
        assert forall|code: u16| pressed_after(pressed, events).contains(code) implies
            pressed.contains(code) && !codes.contains(code) by {
            assert(pressed_after(pressed, rest.map_values(turn)).contains(code));
            if codes.contains(code) {
                let i = choose|i: int| 0 <= i < codes.len() && codes[i] == code;
                if i < rest.len() {
                    assert(rest[i] == code);
                    assert(rest.contains(code));
                } else {
                    assert(events.last() == turn(code));
                }
            }
        }
    }
}

/// A receiver for already authenticated, decoded wire events.
pub trait InputSink {
    /// Whether the sink's bookkeeping is in order; always, for a sink that keeps
    /// none.
    open spec fn ready(&self) -> bool {
        true
    }

    fn inject(&mut self, event: WireInputEvent) -> (result: Result<(), BackendError>)
        requires
            old(self).ready(),
        ensures
            final(self).ready(),
    ;

    fn release_all(&mut self) -> (result: Result<(), BackendError>)
        requires
            old(self).ready(),
        ensures
            final(self).ready(),
    ;
}

/// One report more, up to what a counter can say.
pub open spec fn counted(reports: u64) -> u64 {
    if reports < u64::MAX {
        (reports + 1) as u64
    } else {
        reports
    }
}

/// A sink that validates and follows events without touching a device. It
/// counts the reports that it would have emitted and keeps the last one.
pub struct DryRunSink {
    state: SinkState,
    last: Option<Vec<WireInputEvent>>,
    count: u64,
}

impl DryRunSink {
    pub closed spec fn state(&self) -> SinkView {
        self.state@
    }

    pub closed spec fn emitted(&self) -> Option<Seq<WireInputEvent>> {
        match self.last {
            Some(frame) => Some(frame@),
            None => None,
        }
    }

    /// The number of reports.
    pub closed spec fn reports(&self) -> u64 {
        self.count
    }

    pub fn new() -> (sink: DryRunSink)
        ensures
            sink.state() == SinkView::empty(),
            sink.state().wf(),
            sink.emitted() is None,
            sink.reports() == 0,
    {
        DryRunSink { state: SinkState::default(), last: None, count: 0 }
    }

    /// Keeps a report.
    fn emit(&mut self, frame: Vec<WireInputEvent>)
        ensures
            final(self).state() == old(self).state(),
            final(self).emitted() == Some(frame@),
            final(self).reports() == counted(old(self).reports()),
    {
        self.last = Some(frame);
        if self.count < u64::MAX {
            self.count = self.count + 1;
        }
    }

    /// How many reports there were.
    pub fn report_count(&self) -> (count: u64)
        ensures
            count == self.reports(),
    {
        self.count
    }

    /// The codes that are down, in rising order.
    pub fn pressed_codes(&self) -> (codes: Vec<u16>)
        ensures
            codes@ == crate::codes::held(self.state().pressed),
    {
        self.state.pressed_codes()
    }

    /// The last report, if there was one.
    pub fn last_frame(&self) -> (frame: Option<&Vec<WireInputEvent>>)
        ensures
            match frame {
                Some(frame) => self.emitted() == Some(frame@),
                None => self.emitted() is None,
            },
    {
        self.last.as_ref()
    }

    pub fn is_pressed(&self, code: u16) -> (down: bool)
        ensures
            down == self.state().pressed.contains(code),
    {
        self.state.pressed(code)
    }

    pub fn waiting(&self) -> (count: usize)
        ensures
            count == self.state().pending.len(),
    {
        self.state.waiting()
    }

}

impl InputSink for DryRunSink {
    open spec fn ready(&self) -> bool {
        self.state().wf()
    }

    /// Takes in one event; see [`SinkState::accept`].
    fn inject(&mut self, event: WireInputEvent) -> (result: Result<(), BackendError>)
        ensures
            if !allowed(event) {
                &&& final(self).state() == old(self).state()
                &&& final(self).emitted() == old(self).emitted()
                &&& final(self).reports() == old(self).reports()
                &&& result matches Err(error) && error.says(
                    BackendErrorKind::InvalidInput,
                    refusal_text(event),
                )
            } else if event.event_type == EV_SYN {
                &&& result is Ok
                &&& final(self).emitted() == Some(old(self).state().pending)
                &&& final(self).reports() == counted(old(self).reports())
                &&& final(self).state() == (SinkView {
                    pending: Seq::empty(),
                    pressed: pressed_after(old(self).state().pressed, old(self).state().pending),
                })
            } else {
                &&& result is Ok
                &&& final(self).emitted() == old(self).emitted()
                &&& final(self).reports() == old(self).reports()
                &&& final(self).state() == (SinkView {
                    pending: old(self).state().pending.push(event),
                    ..old(self).state()
                })
            },
    {
        match self.state.accept(event) {
            Err(error) => Err(error),
            Ok(None) => Ok(()),
            Ok(Some(frame)) => {
                proof {
                    lemma_pressed_allowed(old(self).state().pressed, old(self).state().pending);
                }
                self.emit(frame.events.clone());
                assert(self.emitted()->0 =~= old(self).state().pending);
                self.state.commit(frame);
                assert(self.state().pending =~= Seq::empty());
                Ok(())
            },
        }
    }

    /// Drops an incomplete report and lets go of everything that is down.
    fn release_all(&mut self) -> (result: Result<(), BackendError>)
        ensures
            result is Ok,
            final(self).state() == SinkView::empty(),
            final(self).emitted() == if old(self).state().pressed == Set::<u16>::empty() {
                old(self).emitted()
            } else {
                Some(release_events(old(self).state().pressed))
            },
            final(self).reports() == if old(self).state().pressed == Set::<u16>::empty() {
                old(self).reports()
            } else {
                counted(old(self).reports())
            },
    {
        proof {
            law_release_lets_everything_go(self.state());
        }
        self.state.discard();
        let releases = self.state.release_frame();
        if releases.len() > 0 {
            self.emit(releases);
        }
        self.state.released();
        Ok(())
    }
}

/// Which sink is to be used.
pub enum SinkChoice {
    /// One that touches no device.
    DryRun(DryRunSink),
    /// A kernel device, whose events are to be grouped by this state.
    Kernel(SinkState),
}

/// A sink that touches no device, or the state of one that does.
pub fn create_sink(dry_run: bool) -> (choice: SinkChoice)
    ensures
        match choice {
            SinkChoice::DryRun(sink) => dry_run && sink.state() == SinkView::empty()
                && sink.emitted() is None && sink.reports() == 0,
            SinkChoice::Kernel(state) => !dry_run && state@ == SinkView::empty(),
        },
{
    if dry_run {
        return SinkChoice::DryRun(DryRunSink::new());
    }
    SinkChoice::Kernel(SinkState::default())
}

/// The codes that a kernel device has to offer.
pub fn offered_keys() -> (codes: Vec<u16>)
    ensures
        forall|code: u16| codes@.contains(code) <==> allowed_key(code),
{
    let mut codes: Vec<u16> = Vec::new();
    let mut code: u16 = 0;
    while code <= KEY_MAX
        invariant
            code <= KEY_MAX + 1,
            forall|i: int|
                0 <= i < codes@.len() ==> allowed_key(#[trigger] codes@[i]) && codes@[i] < code,
            forall|c: u16| c < code && #[trigger] allowed_key(c) ==> codes@.contains(c),
        decreases KEY_MAX + 1 - code,
    {
        if is_allowed_key_code(code) {
            let ghost before = codes@;
            codes.push(code);
            proof {
                assert(codes@[before.len() as int] == code);
                assert forall|c: u16| c < code + 1 && #[trigger] allowed_key(c) implies codes@.contains(
                    c,
                ) by {
                    if c < code {
                        let i = choose|i: int| 0 <= i < before.len() && before[i] == c;
                        assert(codes@[i] == c);
                    }
                }
            }
        }
        code = code + 1;
    }
    codes
}

/// A report whose movements cancel each other.
pub fn net_zero_report() -> (events: Vec<WireInputEvent>)
    ensures
        events@ == seq![
            WireInputEvent { event_type: EV_REL, code: REL_X, value: 1 },
            WireInputEvent { event_type: EV_REL, code: REL_X, value: (-1) as i32 },
        ],
        events@[0].value + events@[1].value == 0,
{
    let events = vec![
        WireInputEvent { event_type: EV_REL, code: REL_X, value: 1 },
        WireInputEvent { event_type: EV_REL, code: REL_X, value: -1 },
    ];
    assert(events@ =~= seq![
        WireInputEvent { event_type: EV_REL, code: REL_X, value: 1 },
        WireInputEvent { event_type: EV_REL, code: REL_X, value: (-1) as i32 },
    ]);
    events
}

/// What was seen of a net-zero report.
#[derive(Debug, Clone, Copy, PartialEq, Eq, Structural)]
pub struct ReportWatch {
    pub positive_x: bool,
    pub negative_x: bool,
    pub syn: bool,
}

impl ReportWatch {
    pub open spec fn is_complete(self) -> bool {
        self.positive_x && self.negative_x && self.syn
    }

    pub open spec fn with(self, event: WireInputEvent, exact: bool) -> ReportWatch {
        let x = event.event_type == EV_REL && event.code == REL_X;
        ReportWatch {
            positive_x: self.positive_x || (x && event.value == 1),
            negative_x: self.negative_x || (x && event.value == -1),
            syn: self.syn || (event.event_type == EV_SYN && event.code == SYN_REPORT && (!exact
                || event.value == 0)),
        }
    }

    pub fn new() -> (watch: ReportWatch)
        ensures
            watch == (ReportWatch { positive_x: false, negative_x: false, syn: false }),
    {
        ReportWatch { positive_x: false, negative_x: false, syn: false }
    }

    /// Notes an event. The value of a report marker counts only where `exact`
    /// says so.
    pub fn observe(&mut self, event: WireInputEvent, exact: bool)
        ensures
            *final(self) == old(self).with(event, exact),
    {
        let x = event.event_type == EV_REL && event.code == REL_X;
        self.positive_x = self.positive_x || (x && event.value == 1);
        self.negative_x = self.negative_x || (x && event.value == -1);
        self.syn = self.syn || (event.event_type == EV_SYN && event.code == SYN_REPORT && (!exact
            || event.value == 0));
    }

    /// Whether all of the report was seen.
    pub fn complete(&self) -> (complete: bool)
        ensures
            complete == self.is_complete(),
    {
        self.positive_x && self.negative_x && self.syn
    }
}

/// What the self-test does next.
#[derive(Debug, PartialEq, Eq)]
pub enum SelfTestStep {
    /// Wait for more events.
    Wait,
    /// All of the report was seen.
    Complete,
    TimedOut(BackendError),
}

pub open spec fn timeout_text(action: Seq<char>) -> Seq<char> {
    "timed out while "@ + action
}

pub fn timed_out(action: &str) -> (error: BackendError)
    ensures
        error.says(BackendErrorKind::TimedOut, timeout_text(action@)),
{
    let mut message = String::new();
    message.push_str("timed out while ");
    message.push_str(action);
    assert(message@ =~= timeout_text(action@));
    BackendError { kind: BackendErrorKind::TimedOut, message }
}

/// Whether to go on watching for a report.
pub fn watch_step(watch: ReportWatch, elapsed_ms: u64, action: &str) -> (step: SelfTestStep)
    ensures
        if watch.is_complete() {
            step == SelfTestStep::Complete
        } else if elapsed_ms >= KERNEL_SELF_TEST_TIMEOUT_MS {
            step matches SelfTestStep::TimedOut(error) && error.says(
                BackendErrorKind::TimedOut,
                timeout_text(action@),
            )
        } else {
            step == SelfTestStep::Wait
        },
{
    if watch.complete() {
        return SelfTestStep::Complete;
    }
    if elapsed_ms >= KERNEL_SELF_TEST_TIMEOUT_MS {
        return SelfTestStep::TimedOut(timed_out(action));
    }
    SelfTestStep::Wait
}

/// Evidence of a round trip through two kernel devices.
#[derive(Debug, Clone, PartialEq, Eq)]
pub struct KernelSelfTestReport {
    pub source_node: String,
    pub receiver_node: String,
    pub observed_events: usize,
}

pub open spec fn report_text(report: KernelSelfTestReport) -> Seq<char> {
    "kernel input self-test passed: source="@ + report.source_node@ + " receiver="@
        + report.receiver_node@ + " observed_events="@ + crate::text::decimal(
        report.observed_events as nat,
    )
}

impl KernelSelfTestReport {
    pub fn text(&self) -> (text: String)
        ensures
            text@ == report_text(*self),
    {
        let mut text = String::new();
        text.push_str("kernel input self-test passed: source=");
        text.push_str(self.source_node.as_str());
        text.push_str(" receiver=");
        text.push_str(self.receiver_node.as_str());
        text.push_str(" observed_events=");
        push_decimal(&mut text, self.observed_events as u64);
        assert(text@ =~= report_text(*self));
        text
    }
}

/// The outcome of the self-test. Cleaning up happens on every path; its
/// failures count only where the test itself went well.
pub fn self_test_outcome(
    test: Result<KernelSelfTestReport, BackendError>,
    release: Result<(), BackendError>,
    shutdown: Result<(), BackendError>,
) -> (result: Result<KernelSelfTestReport, BackendError>)
    ensures
        result == match (test, release, shutdown) {
            (Err(error), _, _) => Err::<KernelSelfTestReport, BackendError>(error),
            (Ok(_), Err(error), _) => Err(error),
            (Ok(_), Ok(_), Err(error)) => Err(error),
            (Ok(report), Ok(_), Ok(_)) => Ok(report),
        },
{
    match test {
        Err(error) => Err(error),
        Ok(report) => match release {
            Err(error) => Err(error),
            Ok(_) => match shutdown {
                Err(error) => Err(error),
                Ok(_) => Ok(report),
            },
        },
    }
}

/// A kernel device without an event node.
pub fn missing_node(role: &str) -> (error: BackendError)
    ensures
        error.says(
            BackendErrorKind::NotFound,
            "uinput "@ + role@ + " did not expose an event node"@,
        ),
{
    let mut message = String::new();
    message.push_str("uinput ");
    message.push_str(role);
    message.push_str(" did not expose an event node");
    assert(message@ =~= "uinput "@ + role@ + " did not expose an event node"@);
    BackendError { kind: BackendErrorKind::NotFound, message }
}

/// Whether a key of a keyboard acts on the machine or the session rather than
/// on what is shown: power (116); setup, sleep, wakeup and the keys for
/// launching programs up to the second one (141 to 149); suspend (205); and the
/// radio switch (247).
pub open spec fn acts_on_the_machine(code: u16) -> bool {
    code == 116 || 141 <= code <= 149 || code == 205 || code == 247
}

/// What passes the filter. Of the 248 keys of a keyboard every one but those
/// that act on the machine does, pressed, held or let go, and so do the eight
/// buttons of a mouse (0x110 to 0x117); no other key or button does. Movement and
/// wheel steps of a mouse pass by any amount, and the mark that ends a report
/// does. Nothing else does.
pub proof fn law_ordinary_input_passes(event: WireInputEvent)
    ensures
        event.event_type == 1 && 0 <= event.value <= 2 && 1 <= event.code <= 248 ==> (allowed(event)
            <==> !acts_on_the_machine(event.code)),
        event.event_type == 1 && 0 <= event.value <= 2 && !(1 <= event.code <= 248) ==> (allowed(
            event,
        ) <==> 0x110 <= event.code < 0x118),
        event.event_type == 1 && !(0 <= event.value <= 2) ==> !allowed(event),
        event.event_type == 1 ==> (allowed(event) ==> allowed_key(event.code)),
        allowed_key(event.code) ==> allowed(
            WireInputEvent { event_type: 1, code: event.code, value: 0 },
        ),
        event.event_type == 2 ==> (allowed(event) <==> event.code < 2 || event.code == 6
            || event.code == 8 || event.code == 11 || event.code == 12),
        event.event_type == 2 ==> (allowed(event) <==> allowed_relative(event.code)),
        event.event_type == 0 ==> (allowed(event) <==> event.code == 0 && event.value == 0),
        event.event_type > 2 ==> !allowed(event),
{
}

/// A key is down after a report exactly if the last event that pressed it or let
/// it go pressed it; without such an event it is as it was. Here `i` is the
/// place of that event, or negative if there is none.
pub proof fn law_the_last_transition_decides(
    pressed: Set<u16>,
    events: Seq<WireInputEvent>,
    code: u16,
    i: int,
)
    requires
        i < events.len(),
        0 <= i ==> events[i].event_type == 1 && events[i].code == code && (events[i].value == 0
            || events[i].value == 1),
        forall|j: int|
            0 <= j < events.len() && i < j ==> !((#[trigger] events[j]).event_type == 1
                && events[j].code == code && (events[j].value == 0 || events[j].value == 1)),
    ensures
        pressed_after(pressed, events).contains(code) <==> if 0 <= i {
            events[i].value == 1
        } else {
            pressed.contains(code)
        },
    decreases events.len(),
{
    if events.len() > 0 {
        let rest = events.drop_last();
        let last = events.len() - 1;
        if i < last {
            assert(events[last] == events.last());
            assert forall|j: int| 0 <= j < rest.len() && i < j implies !((
            #[trigger] rest[j]).event_type == 1 && rest[j].code == code && (rest[j].value == 0
                || rest[j].value == 1)) by {
                assert(rest[j] == events[j]);
            }
            assert(0 <= i ==> rest[i] == events[i]);
            law_the_last_transition_decides(pressed, rest, code, i);
        }
    }
}

/// The releases let go of just what is down: each is the release of a key that
/// is down, every key that is down has one, and no two are of the same key.
pub proof fn law_releases_name_what_is_down(sink: SinkView)
    requires
        sink.wf(),
    ensures
        forall|i: int|
            0 <= i < release_events(sink.pressed).len() ==> (#[trigger] release_events(
                sink.pressed,
            )[i]).event_type == 1 && release_events(sink.pressed)[i].value == 0
                && sink.pressed.contains(release_events(sink.pressed)[i].code),
        forall|code: u16| #[trigger]
            sink.pressed.contains(code) ==> exists|i: int|
                0 <= i < release_events(sink.pressed).len() && (#[trigger] release_events(
                    sink.pressed,
                )[i]).code == code,
        forall|i: int, j: int|
            0 <= i < j < release_events(sink.pressed).len() ==> (#[trigger] release_events(
                sink.pressed,
            )[i]).code < (#[trigger] release_events(sink.pressed)[j]).code,
{
    let held = crate::codes::held(sink.pressed);
    let events = release_events(sink.pressed);
    crate::codes::law_held_names_every_code(sink.pressed);
    assert forall|i: int| 0 <= i < events.len() implies sink.pressed.contains(
        (#[trigger] events[i]).code,
    ) by {
        assert(held.to_set().contains(held[i]));
    }
    assert forall|code: u16| #[trigger] sink.pressed.contains(code) implies exists|i: int|
        0 <= i < events.len() && (#[trigger] events[i]).code == code by {
        assert(held.to_set().contains(code));
        let i = choose|i: int| 0 <= i < held.len() && held[i] == code;
        assert(events[i].code == code);
    }
}

/// What was seen of a report after a run of events.
pub open spec fn watched(
    watch: ReportWatch,
    events: Seq<WireInputEvent>,
    exact: bool,
) -> ReportWatch
    decreases events.len(),
{
    if events.len() == 0 {
        watch
    } else {
        watched(watch, events.drop_last(), exact).with(events.last(), exact)
    }
}

/// A report was seen exactly if both of its movements and its mark were among
/// the events, in whatever order and among whatever others.
pub proof fn law_a_report_is_seen_whole(events: Seq<WireInputEvent>, exact: bool)
    ensures
        ({
            let found = watched(
                ReportWatch { positive_x: false, negative_x: false, syn: false },
                events,
                exact,
            );
            &&& found.is_complete() <==> found.positive_x && found.negative_x && found.syn
            &&& found.positive_x <==> exists|i: int|
                0 <= i < events.len() && (#[trigger] events[i]).event_type == 2 && events[i].code
                    == 0 && events[i].value == 1
            &&& found.negative_x <==> exists|i: int|
                0 <= i < events.len() && (#[trigger] events[i]).event_type == 2 && events[i].code
                    == 0 && events[i].value == -1
            &&& found.syn <==> exists|i: int|
                0 <= i < events.len() && (#[trigger] events[i]).event_type == 0 && events[i].code
                    == 0 && (exact ==> events[i].value == 0)
        }),
    decreases events.len(),
{
    if events.len() > 0 {
        let rest = events.drop_last();
        let n = events.len() - 1;
        law_a_report_is_seen_whole(rest, exact);
        assert(forall|i: int| 0 <= i < rest.len() ==> rest[i] == events[i]);
        assert(events[n] == events.last());
        let fresh = ReportWatch { positive_x: false, negative_x: false, syn: false };
        let before = watched(fresh, rest, exact);
        let found = watched(fresh, events, exact);
        if before.positive_x {
            let i = choose|i: int|
                0 <= i < rest.len() && (#[trigger] rest[i]).event_type == 2 && rest[i].code == 0
                    && rest[i].value == 1;
            assert(events[i].value == 1);
        }
        if before.negative_x {
            let i = choose|i: int|
                0 <= i < rest.len() && (#[trigger] rest[i]).event_type == 2 && rest[i].code == 0
                    && rest[i].value == -1;
            assert(events[i].value == -1);
        }
        if before.syn {
            let i = choose|i: int|
                0 <= i < rest.len() && (#[trigger] rest[i]).event_type == 0 && rest[i].code == 0
                    && (exact ==> rest[i].value == 0);
            assert(events[i].event_type == 0);
        }
        if exists|i: int|
            0 <= i < events.len() && (#[trigger] events[i]).event_type == 2 && events[i].code == 0
                && events[i].value == 1 {
            let i = choose|i: int|
                0 <= i < events.len() && (#[trigger] events[i]).event_type == 2 && events[i].code
                    == 0 && events[i].value == 1;
            assert(i < n ==> rest[i] == events[i]);
        }
        if exists|i: int|
            0 <= i < events.len() && (#[trigger] events[i]).event_type == 2 && events[i].code == 0
                && events[i].value == -1 {
            let i = choose|i: int|
                0 <= i < events.len() && (#[trigger] events[i]).event_type == 2 && events[i].code
                    == 0 && events[i].value == -1;
            assert(i < n ==> rest[i] == events[i]);
        }
        if exists|i: int|
            0 <= i < events.len() && (#[trigger] events[i]).event_type == 0 && events[i].code == 0
                && (exact ==> events[i].value == 0) {
            let i = choose|i: int|
                0 <= i < events.len() && (#[trigger] events[i]).event_type == 0 && events[i].code
                    == 0 && (exact ==> events[i].value == 0);
            assert(i < n ==> rest[i] == events[i]);
        }
    }
}

/// There is at most one first failure, and there is one where any worker did not
/// end well. A report more is one more, up to what the counter can say.
pub proof fn law_the_first_failure_counts(ends: Seq<WorkerEnd>, i: int, j: int, reports: u64)
    ensures
        is_first_failure(ends, i) && is_first_failure(ends, j) ==> i == j,
        is_first_failure(ends, i) ==> 0 <= i < ends.len() && !(ends[i] is Done) && (0 <= j < i
            ==> ends[j] is Done),
        0 <= j < ends.len() && !(ends[j] is Done) ==> exists|k: int|
            is_first_failure(ends, k) && k <= j,
        reports < 18_446_744_073_709_551_615 ==> counted(reports) == reports + 1,
        reports == 18_446_744_073_709_551_615 ==> counted(reports) == reports,
    decreases j,
{
    if 0 <= j < ends.len() && !(ends[j] is Done) {
        if exists|k: int| 0 <= k < j && !((#[trigger] ends[k]) is Done) {
            let k = choose|k: int| 0 <= k < j && !((#[trigger] ends[k]) is Done);
            law_the_first_failure_counts(ends, i, k, reports);
        } else {
            assert(is_first_failure(ends, j));
        }
    }
    if is_first_failure(ends, i) && is_first_failure(ends, j) && i != j {
        assert(ends[i] is Done || ends[j] is Done);
    }
}

/// A fresh sink holds nothing and nothing waits in it. What a sink tells names
/// the event that it refused, the step that took too long, or both devices and
/// how much was seen.
pub proof fn law_sinks_start_empty_and_tell(
    event: WireInputEvent,
    action: Seq<char>,
    report: KernelSelfTestReport,
    code: u16,
)
    ensures
        SinkView::empty().pending.len() == 0,
        !SinkView::empty().pressed.contains(code),
        event.value >= 0 ==> refusal_text(event) == "refusing input event type="@
            + crate::text::decimal(event.event_type as nat) + " code="@ + crate::text::decimal(
            event.code as nat,
        ) + " value="@ + crate::text::decimal(event.value as nat),
        event.value < 0 ==> refusal_text(event) == "refusing input event type="@
            + crate::text::decimal(event.event_type as nat) + " code="@ + crate::text::decimal(
            event.code as nat,
        ) + " value="@ + ("-"@ + crate::text::decimal((-event.value) as nat)),
        timeout_text(action) == "timed out while "@ + action,
        report_text(report) == "kernel input self-test passed: source="@ + report.source_node@
            + " receiver="@ + report.receiver_node@ + " observed_events="@ + crate::text::decimal(
            report.observed_events as nat,
        ),
{
}

} // verus!
