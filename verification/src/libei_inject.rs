//! Bookkeeping of the sending end of an emulated-input connection.
//!
//! Devices are known by the application's handle for them. Each operation says
//! which calls the application has to make on the connection, in order, and
//! keeps track of what is held so that it can be released.
use std::collections::BTreeSet;

use vstd::prelude::*;

use crate::backend::{BackendError, BackendErrorKind};
use crate::codes::{held_codes, insert_code, remove_code};
use crate::libei_capture::{
    DeviceMetadata, ReceiverMetadata, SeatMetadata, CAP_BUTTON, CAP_KEYBOARD, CAP_POINTER,
    CAP_SCROLL,
};
use crate::text::push_decimal;

verus! {

pub const POINTER_TEST_DELTA: i32 = 2;

/// Largest movement along one axis in one frame.
pub const MAX_AXIS_DELTA: i32 = 2048;

pub const EVDEV_KEY_MAX: u16 = 0x2ff;

pub const EVDEV_BUTTON_MIN: u16 = 0x100;

#[derive(Debug, Clone, Copy, PartialEq, Eq, Structural)]
pub enum InputState {
    Released,
    Pressed,
}

impl InputState {
    pub open spec fn pressed(self) -> bool {
        self == InputState::Pressed
    }

    pub fn is_pressed(self) -> (pressed: bool)
        ensures
            pressed == self.pressed(),
    {
        self == InputState::Pressed
    }
}

/// One call on the connection.
#[derive(Debug, Clone, Copy, PartialEq, Eq, Structural)]
pub enum SenderCall {
    StartEmulating { device: u64, sequence: u32 },
    StopEmulating { device: u64 },
    Motion { device: u64, dx: i32, dy: i32 },
    Key { device: u64, code: u16, pressed: bool },
    Button { device: u64, code: u16, pressed: bool },
    Scroll { device: u64, horizontal: i32, vertical: i32 },
    ScrollStop { device: u64, horizontal: bool, vertical: bool },
    Frame { device: u64 },
}

/// An event of the connection, with what it names.
pub enum SenderEvent {
    Connect,
    Disconnect,
    /// A seat, unless the event named none.
    SeatAdded(Option<SeatMetadata>),
    /// A device with its handle and its capability bits.
    DeviceAdded(Option<(u64, u32, DeviceMetadata)>),
    DeviceRemoved(u64),
    DevicePaused(u64),
    DeviceResumed(u64),
    Other,
}

/// What the application has to do with an event's seat or device.
#[derive(Debug, Clone, Copy, PartialEq, Eq, Structural)]
pub struct SenderEffect {
    /// Bind the seat to the sender's capabilities.
    pub bind: bool,
    /// References to take on the device.
    pub references: u8,
    /// References to drop on the device.
    pub releases: u8,
}

/// What a [`Sender`] knows.
pub struct SenderView {
    pub pointer: Option<u64>,
    pub keyboard: Option<u64>,
    pub button: Option<u64>,
    pub scroll: Option<u64>,
    pub resumed: Seq<u64>,
    pub emulating: Seq<u64>,
    pub keys: Set<u16>,
    pub buttons: Set<u16>,
    pub sequence: u32,
    pub metadata: crate::libei_capture::MetadataView,
}

/// The handles in a list, without one of them.
pub open spec fn without(devices: Seq<u64>, device: u64) -> Seq<u64>
    decreases devices.len(),
{
    if devices.len() == 0 {
        Seq::empty()
    } else if devices.last() == device {
        without(devices.drop_last(), device)
    } else {
        without(devices.drop_last(), device).push(devices.last())
    }
}

/// A slot that held a device which is gone.
pub open spec fn vacated(slot: Option<u64>, device: u64) -> Option<u64> {
    if slot == Some(device) {
        None
    } else {
        slot
    }
}

/// A slot that takes the first suitable device.
pub open spec fn filled(slot: Option<u64>, device: u64, capabilities: u32, wanted: u32) -> Option<
    u64,
> {
    if slot is None && capabilities & wanted != 0 {
        Some(device)
    } else {
        slot
    }
}

impl SenderView {
    pub open spec fn holds(self, device: u64) -> bool {
        self.pointer == Some(device) || self.keyboard == Some(device) || self.button == Some(device)
            || self.scroll == Some(device)
    }

    pub open spec fn ready(self, slot: Option<u64>) -> bool {
        slot matches Some(device) && self.resumed.contains(device)
    }

    /// Only devices in use are resumed, only resumed ones emulate, and what is
    /// held is held on a device that emulates.
    pub open spec fn wf(self) -> bool {
        &&& forall|i: int| 0 <= i < self.resumed.len() ==> self.holds(#[trigger] self.resumed[i])
        &&& forall|i: int|
            0 <= i < self.emulating.len() ==> self.resumed.contains(#[trigger] self.emulating[i])
        &&& self.resumed.no_duplicates()
        &&& self.emulating.no_duplicates()
        &&& forall|code: u16| #[trigger]
            self.keys.contains(code) ==> code <= EVDEV_KEY_MAX && (self.keyboard matches Some(
                device,
            ) && self.emulating.contains(device))
        &&& forall|code: u16| #[trigger]
            self.buttons.contains(code) ==> EVDEV_BUTTON_MIN <= code <= EVDEV_KEY_MAX && (
            self.button matches Some(device) && self.emulating.contains(device))
    }

    /// The number of the next emulation.
    pub open spec fn next_sequence(self) -> u32 {
        if self.sequence == u32::MAX {
            1
        } else {
            (self.sequence + 1) as u32
        }
    }

    /// The state in which a device emulates.
    pub open spec fn emulated(self, device: u64) -> SenderView {
        if self.emulating.contains(device) {
            self
        } else {
            SenderView {
                emulating: self.emulating.push(device),
                sequence: self.next_sequence(),
                ..self
            }
        }
    }

    /// The calls that make a device emulate.
    pub open spec fn start_calls(self, device: u64) -> Seq<SenderCall> {
        if self.emulating.contains(device) {
            Seq::empty()
        } else {
            seq![SenderCall::StartEmulating { device, sequence: self.next_sequence() }]
        }
    }

    /// The state after an event.
    pub open spec fn after(self, event: SenderEvent) -> SenderView {
        match event {
            SenderEvent::Connect => SenderView {
                metadata: crate::libei_capture::MetadataView { connected: true, ..self.metadata },
                ..self
            },
            SenderEvent::Disconnect => SenderView {
                metadata: crate::libei_capture::MetadataView {
                    disconnected: true,
                    ..self.metadata
                },
                ..self
            },
            SenderEvent::SeatAdded(Some(seat)) => SenderView {
                metadata: crate::libei_capture::MetadataView {
                    seats: self.metadata.seats.push(seat),
                    ..self.metadata
                },
                ..self
            },
            SenderEvent::DeviceAdded(Some((device, capabilities, metadata))) => SenderView {
                pointer: filled(self.pointer, device, capabilities, CAP_POINTER),
                keyboard: filled(self.keyboard, device, capabilities, CAP_KEYBOARD),
                button: filled(self.button, device, capabilities, CAP_BUTTON),
                scroll: filled(self.scroll, device, capabilities, CAP_SCROLL),
                metadata: crate::libei_capture::MetadataView {
                    devices: self.metadata.devices.push(metadata),
                    ..self.metadata
                },
                ..self
            },
            SenderEvent::DeviceRemoved(device) => SenderView {
                pointer: vacated(self.pointer, device),
                keyboard: vacated(self.keyboard, device),
                button: vacated(self.button, device),
                scroll: vacated(self.scroll, device),
                resumed: without(self.resumed, device),
                emulating: without(self.emulating, device),
                keys: Set::empty(),
                buttons: Set::empty(),
                ..self
            },
            SenderEvent::DevicePaused(device) => SenderView {
                resumed: without(self.resumed, device),
                emulating: without(self.emulating, device),
                keys: if self.keyboard == Some(device) {
                    Set::empty()
                } else {
                    self.keys
                },
                buttons: if self.button == Some(device) {
                    Set::empty()
                } else {
                    self.buttons
                },
                ..self
            },
            SenderEvent::DeviceResumed(device) => if self.holds(device) && !self.resumed.contains(
                device,
            ) {
                SenderView { resumed: self.resumed.push(device), ..self }
            } else {
                self
            },
            _ => self,
        }
    }

    /// The state in which nothing is held and nothing emulates. What is held
    /// on a slot without a device cannot be released and stays noted.
    pub open spec fn released(self) -> SenderView {
        SenderView {
            keys: if self.keyboard is Some {
                Set::empty()
            } else {
                self.keys
            },
            buttons: if self.button is Some {
                Set::empty()
            } else {
                self.buttons
            },
            emulating: Seq::empty(),
            ..self
        }
    }
}

/// The calls that release what is held on one device.
pub open spec fn release_calls(codes: Set<u16>, device: u64, keys: bool) -> Seq<SenderCall> {
    let releases = crate::codes::held(codes).map_values(
        |code: u16|
            if keys {
                SenderCall::Key { device, code, pressed: false }
            } else {
                SenderCall::Button { device, code, pressed: false }
            },
    );
    if releases.len() == 0 {
        releases
    } else {
        releases.push(SenderCall::Frame { device })
    }
}

/// Nothing is left to release after a release: doing it again calls nothing.
pub proof fn law_release_is_complete_and_idempotent(sender: SenderView)
    requires
        sender.wf(),
    ensures
        sender.released().wf(),
        sender.released().keys == Set::<u16>::empty(),
        sender.released().buttons == Set::<u16>::empty(),
        sender.released().emulating.len() == 0,
        sender.released().released() == sender.released(),
        crate::codes::held(sender.released().keys).len() == 0,
        crate::codes::held(sender.released().buttons).len() == 0,
{
    if sender.keyboard is None {
        assert(sender.keys =~= Set::empty());
    }
    if sender.button is None {
        assert(sender.buttons =~= Set::empty());
    }
    crate::codes::law_held_names_every_code(Set::empty());
    let none = crate::codes::held(Set::empty());
    if none.len() > 0 {
        assert(none.to_set().contains(none[0]));
    }
}

proof fn lemma_without(devices: Seq<u64>, device: u64)
    ensures
        forall|i: int|
            0 <= i < without(devices, device).len() ==> devices.contains(
                #[trigger] without(devices, device)[i],
            ) && without(devices, device)[i] != device,
        forall|d: u64| #[trigger]
            devices.contains(d) && d != device ==> without(devices, device).contains(d),
        devices.no_duplicates() ==> without(devices, device).no_duplicates(),
    decreases devices.len(),
{
    if devices.len() > 0 {
        let rest = devices.drop_last();
        let last = devices.last();
        lemma_without(rest, device);
        let kept = without(rest, device);
        assert forall|d: u64| #[trigger] devices.contains(d) && d != device implies without(
            devices,
            device,
        ).contains(d) by {
            let i = choose|i: int| 0 <= i < devices.len() && devices[i] == d;
            if i < rest.len() {
                assert(rest[i] == d);
                assert(rest.contains(d));
                let k = kept.index_of(d);
                assert(without(devices, device)[k] == d);
            } else {
                assert(without(devices, device)[kept.len() as int] == d);
            }
        }
        assert forall|i: int| 0 <= i < without(devices, device).len() implies devices.contains(
            #[trigger] without(devices, device)[i],
        ) && without(devices, device)[i] != device by {
            if i < kept.len() {
                assert(without(devices, device)[i] == kept[i]);
                assert(rest.contains(kept[i]));
                let k = rest.index_of(kept[i]);
                assert(devices[k] == kept[i]);
            } else {
                assert(devices[devices.len() - 1] == last);
            }
        }
        if devices.no_duplicates() {
            assert(rest.no_duplicates());
            assert(!rest.contains(last)) by {
                if rest.contains(last) {
                    let k = rest.index_of(last);
                    assert(devices[k] == devices[devices.len() - 1]);
                }
            }
            assert(without(devices, device).no_duplicates()) by {
                let all = without(devices, device);
                assert forall|i: int, j: int|
                    0 <= i < all.len() && 0 <= j < all.len() && i != j implies all[i] != all[j] by {
                    if i < kept.len() {
                        assert(rest.contains(kept[i]));
                    }
                    if j < kept.len() {
                        assert(rest.contains(kept[j]));
                    }
                }
            }
        }
    }
}

/// Every event keeps the bookkeeping consistent.
pub proof fn law_events_keep_the_ledger(sender: SenderView, event: SenderEvent)
    requires
        sender.wf(),
    ensures
        sender.after(event).wf(),
{
    let after = sender.after(event);
    match event {
        SenderEvent::DeviceRemoved(device) | SenderEvent::DevicePaused(device) => {
            lemma_without(sender.resumed, device);
            lemma_without(sender.emulating, device);
            assert forall|i: int| 0 <= i < after.resumed.len() implies after.holds(
                #[trigger] after.resumed[i],
            ) by {
                let k = sender.resumed.index_of(after.resumed[i]);
                assert(sender.holds(sender.resumed[k]));
            }
            assert forall|i: int| 0 <= i < after.emulating.len() implies after.resumed.contains(
                #[trigger] after.emulating[i],
            ) by {
                let k = sender.emulating.index_of(after.emulating[i]);
                assert(sender.resumed.contains(sender.emulating[k]));
            }
        },
        SenderEvent::DeviceResumed(device) => {
            if sender.holds(device) && !sender.resumed.contains(device) {
                assert forall|i: int| 0 <= i < after.emulating.len() implies after.resumed.contains(
                    #[trigger] after.emulating[i],
                ) by {
                    let k = sender.resumed.index_of(sender.emulating[i]);
                    assert(after.resumed[k] == sender.emulating[i]);
                }
            }
        },
        _ => {},
    }
}

fn contains_device(devices: &Vec<u64>, target: u64) -> (found: bool)
    ensures
        found == devices@.contains(target),
{
    let mut i: usize = 0;
    while i < devices.len()
        invariant
            i <= devices.len(),
            forall|j: int| 0 <= j < i ==> devices@[j] != target,
        decreases devices.len() - i,
    {
        if devices[i] == target {
            return true;
        }
        i = i + 1;
    }
    false
}

fn drop_device(devices: &mut Vec<u64>, device: u64)
    ensures
        final(devices)@ == without(old(devices)@, device),
{
    let mut kept: Vec<u64> = Vec::new();
    let mut i: usize = 0;
    assert(without(devices@.take(0), device) =~= Seq::<u64>::empty());
    while i < devices.len()
        invariant
            i <= devices.len(),
            devices@ == old(devices)@,
            kept@ == without(devices@.take(i as int), device),
        decreases devices.len() - i,
    {
        proof {
            let next = devices@.take(i + 1);
            assert(next.drop_last() =~= devices@.take(i as int));
            assert(next.last() == devices@[i as int]);
        }
        if devices[i] != device {
            kept.push(devices[i]);
        }
        i = i + 1;
    }
    assert(devices@.take(i as int) =~= devices@);
    *devices = kept;
}

/// Empties a slot that holds `removed`; true if it did.
fn release_matching(slot: &mut Option<u64>, removed: u64) -> (released: bool)
    ensures
        *final(slot) == vacated(*old(slot), removed),
        released == (*old(slot) == Some(removed)),
{
    if *slot == Some(removed) {
        *slot = None;
        return true;
    }
    false
}

/// Fills an empty slot with a suitable device; true if it did.
fn fill_slot(slot: &mut Option<u64>, device: u64, capabilities: u32, wanted: u32) -> (taken: bool)
    ensures
        *final(slot) == filled(*old(slot), device, capabilities, wanted),
        taken == (*old(slot) is None && capabilities & wanted != 0),
{
    if slot.is_none() && capabilities & wanted != 0 {
        *slot = Some(device);
        return true;
    }
    false
}

pub open spec fn transition_text(kind: Seq<char>, code: u16) -> Seq<char> {
    "duplicate or unmatched "@ + kind + " transition for code "@ + crate::text::decimal(
        code as nat,
    )
}

/// The set after a transition.
pub open spec fn transitioned(pressed: Set<u16>, code: u16, state: InputState) -> Set<u16> {
    match state {
        InputState::Pressed => pressed.insert(code),
        InputState::Released => pressed.remove(code),
    }
}

/// Whether a transition changes anything.
pub open spec fn is_transition(pressed: Set<u16>, code: u16, state: InputState) -> bool {
    pressed.contains(code) != state.pressed()
}

/// Notes a key or button transition. Pressing what is pressed and releasing
/// what is not are refused.
pub fn update_pressed(
    pressed: &mut BTreeSet<u16>,
    code: u16,
    state: InputState,
    kind: &str,
) -> (result: Result<(), BackendError>)
    ensures
        final(pressed)@ == transitioned(old(pressed)@, code, state),
        match result {
            Ok(_) => is_transition(old(pressed)@, code, state),
            Err(error) => !is_transition(old(pressed)@, code, state) && final(pressed)@ == old(
                pressed,
            )@ && error.says(BackendErrorKind::InvalidInput, transition_text(kind@, code)),
        },
{
    let changed = match state {
        InputState::Pressed => insert_code(pressed, code),
        InputState::Released => remove_code(pressed, code),
    };
    assert(pressed@ =~= transitioned(old(pressed)@, code, state));
    if changed {
        return Ok(());
    }
    assert(pressed@ =~= old(pressed)@);
    let mut message = String::new();
    message.push_str("duplicate or unmatched ");
    message.push_str(kind);
    message.push_str(" transition for code ");
    push_decimal(&mut message, code as u64);
    assert(message@ =~= transition_text(kind@, code));
    Err(BackendError { kind: BackendErrorKind::InvalidInput, message })
}

pub open spec fn bounded(x: int, y: int) -> bool {
    -MAX_AXIS_DELTA <= x <= MAX_AXIS_DELTA && -MAX_AXIS_DELTA <= y <= MAX_AXIS_DELTA
}

/// Refuses movement beyond what one frame may carry.
pub fn validate_axis_pair(x: i32, y: i32, kind: &str) -> (result: Result<(), BackendError>)
    ensures
        match result {
            Ok(_) => bounded(x as int, y as int),
            Err(error) => !bounded(x as int, y as int) && error.says(
                BackendErrorKind::InvalidInput,
                kind@ + " delta exceeds the per-frame limit of 2048"@,
            ),
        },
{
    if -MAX_AXIS_DELTA <= x && x <= MAX_AXIS_DELTA && -MAX_AXIS_DELTA <= y && y <= MAX_AXIS_DELTA {
        return Ok(());
    }
    let mut message = String::new();
    message.push_str(kind);
    message.push_str(" delta exceeds the per-frame limit of 2048");
    assert(message@ =~= kind@ + " delta exceeds the per-frame limit of 2048"@);
    Err(BackendError { kind: BackendErrorKind::InvalidInput, message })
}

/// The capabilities that a sender binds on every seat.
pub fn sender_capabilities() -> (bound: Vec<u32>)
    ensures
        bound@ == seq![CAP_POINTER, CAP_KEYBOARD, CAP_BUTTON, CAP_SCROLL],
{
    let bound = vec![CAP_POINTER, CAP_KEYBOARD, CAP_BUTTON, CAP_SCROLL];
    assert(bound@ =~= seq![CAP_POINTER, CAP_KEYBOARD, CAP_BUTTON, CAP_SCROLL]);
    bound
}

/// What the sending end does next in the opening exchange.
#[derive(Debug, Clone, Copy, PartialEq, Eq, Structural)]
pub enum SenderStep {
    /// Wait for events, no longer than this.
    Dispatch { nanos: u128 },
    /// Pointer and keyboard are there.
    Ready,
}

/// Why a device cannot be used.
pub open spec fn unready(sender: SenderView, slot: Option<u64>, capability: Seq<char>) -> Option<
    (BackendErrorKind, Seq<char>),
> {
    if slot is None {
        Some((BackendErrorKind::NotConnected, "no EIS "@ + capability + " device"@))
    } else if !sender.ready(slot) {
        Some((BackendErrorKind::WouldBlock, "EIS "@ + capability + " device is not resumed"@))
    } else {
        None
    }
}

/// Whether the result is the refusal that `fault` names.
pub open spec fn refused<A>(
    result: Result<A, BackendError>,
    fault: (BackendErrorKind, Seq<char>),
) -> bool {
    result matches Err(error) && error.says(fault.0, fault.1)
}

/// Why a relative motion is refused.
pub open spec fn relative_fault(sender: SenderView, dx: i32, dy: i32) -> Option<
    (BackendErrorKind, Seq<char>),
> {
    if !bounded(dx as int, dy as int) {
        Some(
            (
                BackendErrorKind::InvalidInput,
                "relative pointer"@ + " delta exceeds the per-frame limit of 2048"@,
            ),
        )
    } else {
        unready(sender, sender.pointer, "relative-pointer"@)
    }
}

/// Why a key transition is refused.
pub open spec fn key_fault(sender: SenderView, evdev: u16, state: InputState) -> Option<
    (BackendErrorKind, Seq<char>),
> {
    if evdev > EVDEV_KEY_MAX {
        Some(
            (
                BackendErrorKind::InvalidInput,
                "evdev key code "@ + crate::text::decimal(evdev as nat) + " exceeds KEY_MAX"@,
            ),
        )
    } else if unready(sender, sender.keyboard, "keyboard"@) is Some {
        unready(sender, sender.keyboard, "keyboard"@)
    } else if !is_transition(sender.keys, evdev, state) {
        Some((BackendErrorKind::InvalidInput, transition_text("key"@, evdev)))
    } else {
        None
    }
}

/// Why a button transition is refused.
pub open spec fn button_fault(sender: SenderView, evdev: u16, state: InputState) -> Option<
    (BackendErrorKind, Seq<char>),
> {
    if !(EVDEV_BUTTON_MIN <= evdev <= EVDEV_KEY_MAX) {
        Some(
            (
                BackendErrorKind::InvalidInput,
                "evdev button code "@ + crate::text::decimal(evdev as nat)
                    + " is outside the BTN range"@,
            ),
        )
    } else if unready(sender, sender.button, "button"@) is Some {
        unready(sender, sender.button, "button"@)
    } else if !is_transition(sender.buttons, evdev, state) {
        Some((BackendErrorKind::InvalidInput, transition_text("button"@, evdev)))
    } else {
        None
    }
}

/// Why a scroll is refused.
pub open spec fn scroll_fault(sender: SenderView, horizontal: i32, vertical: i32) -> Option<
    (BackendErrorKind, Seq<char>),
> {
    if !bounded(horizontal as int, vertical as int) {
        Some(
            (
                BackendErrorKind::InvalidInput,
                "scroll"@ + " delta exceeds the per-frame limit of 2048"@,
            ),
        )
    } else {
        unready(sender, sender.scroll, "scroll"@)
    }
}

/// The sending end without its connection.
pub struct Sender {
    pointer: Option<u64>,
    keyboard: Option<u64>,
    button: Option<u64>,
    scroll: Option<u64>,
    resumed: Vec<u64>,
    emulating: Vec<u64>,
    pressed_keys: BTreeSet<u16>,
    pressed_buttons: BTreeSet<u16>,
    sequence: u32,
    metadata: ReceiverMetadata,
}

impl View for Sender {
    type V = SenderView;

    closed spec fn view(&self) -> SenderView {
        SenderView {
            pointer: self.pointer,
            keyboard: self.keyboard,
            button: self.button,
            scroll: self.scroll,
            resumed: self.resumed@,
            emulating: self.emulating@,
            keys: self.pressed_keys@,
            buttons: self.pressed_buttons@,
            sequence: self.sequence,
            metadata: self.metadata@,
        }
    }
}

impl Sender {
    pub fn new() -> (sender: Sender)
        ensures
            sender@ == (SenderView {
                pointer: None,
                keyboard: None,
                button: None,
                scroll: None,
                resumed: Seq::empty(),
                emulating: Seq::empty(),
                keys: Set::empty(),
                buttons: Set::empty(),
                sequence: 0,
                metadata: crate::libei_capture::MetadataView::unknown(),
            }),
            sender@.wf(),
    {
        Sender {
            pointer: None,
            keyboard: None,
            button: None,
            scroll: None,
            resumed: Vec::new(),
            emulating: Vec::new(),
            pressed_keys: BTreeSet::new(),
            pressed_buttons: BTreeSet::new(),
            sequence: 0,
            metadata: ReceiverMetadata::default(),
        }
    }

    pub fn metadata(&self) -> (metadata: &ReceiverMetadata)
        ensures
            metadata@ == self@.metadata,
    {
        &self.metadata
    }

    fn device_ready(&self, device: Option<u64>) -> (ready: bool)
        ensures
            ready == self@.ready(device),
    {
        match device {
            Some(device) => contains_device(&self.resumed, device),
            None => false,
        }
    }

    /// What to do next in the opening exchange: it is over once a pointer and
    /// a keyboard are announced and resumed. `remaining_nanos` is `None` once
    /// its deadline is over.
    pub fn handshake(&self, remaining_nanos: Option<u128>) -> (result: Result<
        SenderStep,
        BackendError,
    >)
        ensures
            ({
                let both = self@.ready(self@.pointer) && self@.ready(self@.keyboard);
                let over = both || self@.metadata.disconnected || remaining_nanos is None;
                if !over {
                    result == Ok::<SenderStep, BackendError>(
                        SenderStep::Dispatch {
                            nanos: crate::libei_capture::slice(
                                remaining_nanos->0,
                                crate::libei_capture::CONNECT_SLICE_NANOS,
                            ),
                        },
                    )
                } else if !self@.metadata.connected {
                    refused(
                        result,
                        (
                            BackendErrorKind::TimedOut,
                            "EIS sender did not complete its Connect handshake"@,
                        ),
                    )
                } else if !both {
                    refused(
                        result,
                        (
                            BackendErrorKind::TimedOut,
                            "EIS sender did not announce and resume both pointer and keyboard devices"@,
                        ),
                    )
                } else {
                    result == Ok::<SenderStep, BackendError>(SenderStep::Ready)
                }
            }),
    {
        let both = self.device_ready(self.pointer) && self.device_ready(self.keyboard);
        if !both && !self.metadata.disconnected {
            if let Some(remaining) = remaining_nanos {
                let nanos: u128 = if remaining < crate::libei_capture::CONNECT_SLICE_NANOS {
                    remaining
                } else {
                    crate::libei_capture::CONNECT_SLICE_NANOS
                };
                return Ok(SenderStep::Dispatch { nanos });
            }
        }
        if !self.metadata.connected {
            return Err(
                BackendError::new(
                    BackendErrorKind::TimedOut,
                    "EIS sender did not complete its Connect handshake",
                ),
            );
        }
        if !both {
            return Err(
                BackendError::new(
                    BackendErrorKind::TimedOut,
                    "EIS sender did not announce and resume both pointer and keyboard devices",
                ),
            );
        }
        Ok(SenderStep::Ready)
    }

    fn require_ready(&self, device: Option<u64>, capability: &str) -> (result: Result<
        u64,
        BackendError,
    >)
        ensures
            match unready(self@, device, capability@) {
                Some(fault) => refused(result, fault),
                None => result == Ok::<u64, BackendError>(device->0),
            },
    {
        let mut message = String::new();
        match device {
            None => {
                message.push_str("no EIS ");
                message.push_str(capability);
                message.push_str(" device");
                assert(message@ =~= "no EIS "@ + capability@ + " device"@);
                Err(BackendError { kind: BackendErrorKind::NotConnected, message })
            },
            Some(found) => {
                if !self.device_ready(device) {
                    message.push_str("EIS ");
                    message.push_str(capability);
                    message.push_str(" device is not resumed");
                    assert(message@ =~= "EIS "@ + capability@ + " device is not resumed"@);
                    return Err(BackendError { kind: BackendErrorKind::WouldBlock, message });
                }
                Ok(found)
            },
        }
    }

    fn ensure_emulating(&mut self, device: u64, calls: &mut Vec<SenderCall>)
        ensures
            final(self)@ == old(self)@.emulated(device),
            final(calls)@ == old(calls)@ + old(self)@.start_calls(device),
    {
        if contains_device(&self.emulating, device) {
            assert(calls@ =~= old(calls)@ + old(self)@.start_calls(device));
            return;
        }
        self.sequence =
        if self.sequence == 0xffff_ffff {
            1
        } else {
            self.sequence + 1
        };
        calls.push(SenderCall::StartEmulating { device, sequence: self.sequence });
        self.emulating.push(device);
        assert(calls@ =~= old(calls)@ + old(self)@.start_calls(device));
    }

    /// A bounded relative motion frame.
    pub fn inject_relative(&mut self, dx: i32, dy: i32) -> (result: Result<
        Vec<SenderCall>,
        BackendError,
    >)
        requires
            old(self)@.wf(),
        ensures
            final(self)@.wf(),
            match relative_fault(old(self)@, dx, dy) {
                Some(fault) => final(self)@ == old(self)@ && refused(result, fault),
                None => {
                    let device = old(self)@.pointer->0;
                    &&& final(self)@ == old(self)@.emulated(device)
                    &&& result matches Ok(calls) && calls@ == old(self)@.start_calls(device) + seq![
                        SenderCall::Motion { device, dx, dy },
                        SenderCall::Frame { device },
                    ]
                },
            },
    {
        if let Err(error) = validate_axis_pair(dx, dy, "relative pointer") {
            return Err(error);
        }
        let device = match self.require_ready(self.pointer, "relative-pointer") {
            Ok(device) => device,
            Err(error) => {
                return Err(error);
            },
        };
        let mut calls: Vec<SenderCall> = Vec::new();
        self.ensure_emulating(device, &mut calls);
        calls.push(SenderCall::Motion { device, dx, dy });
        calls.push(SenderCall::Frame { device });
        proof {
            lemma_emulated(old(self)@, device);
            assert(calls@ =~= old(self)@.start_calls(device) + seq![
                SenderCall::Motion { device, dx, dy },
                SenderCall::Frame { device },
            ]);
        }
        Ok(calls)
    }

    /// One validated evdev key transition.
    pub fn inject_key(&mut self, evdev: u16, state: InputState) -> (result: Result<
        Vec<SenderCall>,
        BackendError,
    >)
        requires
            old(self)@.wf(),
        ensures
            final(self)@.wf(),
            match key_fault(old(self)@, evdev, state) {
                Some(fault) => final(self)@ == old(self)@ && refused(result, fault),
                None => {
                    let device = old(self)@.keyboard->0;
                    &&& final(self)@ == SenderView {
                        keys: transitioned(old(self)@.keys, evdev, state),
                        ..old(self)@.emulated(device)
                    }
                    &&& result matches Ok(calls) && calls@ == old(self)@.start_calls(device) + seq![
                        SenderCall::Key { device, code: evdev, pressed: state.pressed() },
                        SenderCall::Frame { device },
                    ]
                },
            },
    {
        if evdev > EVDEV_KEY_MAX {
            let mut message = String::new();
            message.push_str("evdev key code ");
            push_decimal(&mut message, evdev as u64);
            message.push_str(" exceeds KEY_MAX");
            assert(message@ =~= "evdev key code "@ + crate::text::decimal(evdev as nat)
                + " exceeds KEY_MAX"@);
            return Err(BackendError { kind: BackendErrorKind::InvalidInput, message });
        }
        let device = match self.require_ready(self.keyboard, "keyboard") {
            Ok(device) => device,
            Err(error) => {
                return Err(error);
            },
        };
        if let Err(error) = update_pressed(&mut self.pressed_keys, evdev, state, "key") {
            return Err(error);
        }
        let mut calls: Vec<SenderCall> = Vec::new();
        self.ensure_emulating(device, &mut calls);
        calls.push(SenderCall::Key { device, code: evdev, pressed: state.is_pressed() });
        calls.push(SenderCall::Frame { device });
        proof {
            lemma_emulated(old(self)@, device);
            assert(calls@ =~= old(self)@.start_calls(device) + seq![
                SenderCall::Key { device, code: evdev, pressed: state.pressed() },
                SenderCall::Frame { device },
            ]);
        }
        Ok(calls)
    }

    /// One validated evdev button transition.
    pub fn inject_button(&mut self, evdev: u16, state: InputState) -> (result: Result<
        Vec<SenderCall>,
        BackendError,
    >)
        requires
            old(self)@.wf(),
        ensures
            final(self)@.wf(),
            match button_fault(old(self)@, evdev, state) {
                Some(fault) => final(self)@ == old(self)@ && refused(result, fault),
                None => {
                    let device = old(self)@.button->0;
                    &&& final(self)@ == SenderView {
                        buttons: transitioned(old(self)@.buttons, evdev, state),
                        ..old(self)@.emulated(device)
                    }
                    &&& result matches Ok(calls) && calls@ == old(self)@.start_calls(device) + seq![
                        SenderCall::Button { device, code: evdev, pressed: state.pressed() },
                        SenderCall::Frame { device },
                    ]
                },
            },
    {
        if evdev < EVDEV_BUTTON_MIN || evdev > EVDEV_KEY_MAX {
            let mut message = String::new();
            message.push_str("evdev button code ");
            push_decimal(&mut message, evdev as u64);
            message.push_str(" is outside the BTN range");
            assert(message@ =~= "evdev button code "@ + crate::text::decimal(evdev as nat)
                + " is outside the BTN range"@);
            return Err(BackendError { kind: BackendErrorKind::InvalidInput, message });
        }
        let device = match self.require_ready(self.button, "button") {
            Ok(device) => device,
            Err(error) => {
                return Err(error);
            },
        };
        if let Err(error) = update_pressed(&mut self.pressed_buttons, evdev, state, "button") {
            return Err(error);
        }
        let mut calls: Vec<SenderCall> = Vec::new();
        self.ensure_emulating(device, &mut calls);
        calls.push(SenderCall::Button { device, code: evdev, pressed: state.is_pressed() });
        calls.push(SenderCall::Frame { device });
        proof {
            lemma_emulated(old(self)@, device);
            assert(calls@ =~= old(self)@.start_calls(device) + seq![
                SenderCall::Button { device, code: evdev, pressed: state.pressed() },
                SenderCall::Frame { device },
            ]);
        }
        Ok(calls)
    }

    /// A bounded smooth-scroll frame.
    pub fn inject_scroll(&mut self, horizontal: i32, vertical: i32, finish: bool) -> (result: Result<
        Vec<SenderCall>,
        BackendError,
    >)
        requires
            old(self)@.wf(),
        ensures
            final(self)@.wf(),
            match scroll_fault(old(self)@, horizontal, vertical) {
                Some(fault) => final(self)@ == old(self)@ && refused(result, fault),
                None => {
                    let device = old(self)@.scroll->0;
                    &&& final(self)@ == old(self)@.emulated(device)
                    &&& result matches Ok(calls) && calls@ == old(self)@.start_calls(device) + seq![
                        SenderCall::Scroll { device, horizontal, vertical },
                    ] + (if finish {
                        seq![
                            SenderCall::ScrollStop {
                                device,
                                horizontal: horizontal != 0,
                                vertical: vertical != 0,
                            },
                        ]
                    } else {
                        Seq::empty()
                    }) + seq![SenderCall::Frame { device }]
                },
            },
    {
        if let Err(error) = validate_axis_pair(horizontal, vertical, "scroll") {
            return Err(error);
        }
        let device = match self.require_ready(self.scroll, "scroll") {
            Ok(device) => device,
            Err(error) => {
                return Err(error);
            },
        };
        let mut calls: Vec<SenderCall> = Vec::new();
        self.ensure_emulating(device, &mut calls);
        calls.push(SenderCall::Scroll { device, horizontal, vertical });
        if finish {
            calls.push(
                SenderCall::ScrollStop {
                    device,
                    horizontal: horizontal != 0,
                    vertical: vertical != 0,
                },
            );
        }
        calls.push(SenderCall::Frame { device });
        proof {
            lemma_emulated(old(self)@, device);
            let stop = if finish {
                seq![
                    SenderCall::ScrollStop {
                        device,
                        horizontal: horizontal != 0,
                        vertical: vertical != 0,
                    },
                ]
            } else {
                Seq::empty()
            };
            assert(calls@ =~= old(self)@.start_calls(device) + seq![
                SenderCall::Scroll { device, horizontal, vertical },
            ] + stop + seq![SenderCall::Frame { device }]);
        }
        Ok(calls)
    }

    /// Two opposite frames that return the pointer to where it was.
    pub fn bounded_pointer_test(&mut self) -> (result: Result<Vec<SenderCall>, BackendError>)
        requires
            old(self)@.wf(),
        ensures
            final(self)@.wf(),
            match unready(old(self)@, old(self)@.pointer, "relative-pointer"@) {
                Some(fault) => final(self)@ == old(self)@ && refused(result, fault),
                None => {
                    let device = old(self)@.pointer->0;
                    &&& final(self)@ == old(self)@.emulated(device)
                    &&& result matches Ok(calls) && calls@ == old(self)@.start_calls(device) + seq![
                        SenderCall::Motion { device, dx: POINTER_TEST_DELTA, dy: 0 },
                        SenderCall::Frame { device },
                        SenderCall::Motion { device, dx: (-POINTER_TEST_DELTA) as i32, dy: 0 },
                        SenderCall::Frame { device },
                    ]
                },
            },
    {
        let mut calls = match self.inject_relative(POINTER_TEST_DELTA, 0) {
            Ok(calls) => calls,
            Err(error) => {
                return Err(error);
            },
        };
        let ghost device = old(self)@.pointer->0;
        proof {
            lemma_emulated(old(self)@, device);
        }
        let ghost middle = self@;
        let mut back = match self.inject_relative(-POINTER_TEST_DELTA, 0) {
            Ok(back) => back,
            Err(error) => {
                return Err(error);
            },
        };
        proof {
            assert(middle.emulating.contains(device));
            assert(back@ =~= seq![
                SenderCall::Motion { device, dx: (-POINTER_TEST_DELTA) as i32, dy: 0 },
                SenderCall::Frame { device },
            ]);
        }
        calls.append(&mut back);
        assert(calls@ =~= old(self)@.start_calls(device) + seq![
            SenderCall::Motion { device, dx: POINTER_TEST_DELTA, dy: 0 },
            SenderCall::Frame { device },
            SenderCall::Motion { device, dx: (-POINTER_TEST_DELTA) as i32, dy: 0 },
            SenderCall::Frame { device },
        ]);
        Ok(calls)
    }

    /// Whether the connection outlived the pointer test.
    pub fn pointer_test_outcome(&self) -> (result: Result<(), BackendError>)
        ensures
            if self@.metadata.disconnected {
                refused(
                    result,
                    (
                        BackendErrorKind::BrokenPipe,
                        "EIS server disconnected during pointer proof"@,
                    ),
                )
            } else {
                result is Ok
            },
    {
        if self.metadata.disconnected {
            return Err(
                BackendError::new(
                    BackendErrorKind::BrokenPipe,
                    "EIS server disconnected during pointer proof",
                ),
            );
        }
        Ok(())
    }

    /// Notes the name of an event.
    pub fn record_event_name(&mut self, name: String)
        ensures
            final(self)@ == (SenderView {
                metadata: crate::libei_capture::MetadataView {
                    event_types: old(self)@.metadata.event_types.push(name@),
                    ..old(self)@.metadata
                },
                ..old(self)@
            }),
    {
        self.metadata.event_types.push(name);
        assert(self@.metadata.event_types =~= old(self)@.metadata.event_types.push(name@));
    }

    /// Takes in an event of the connection.
    pub fn process_event(&mut self, event: SenderEvent) -> (effect: SenderEffect)
        requires
            old(self)@.wf(),
        ensures
            final(self)@ == old(self)@.after(event),
            final(self)@.wf(),
            effect == sender_effect(old(self)@, event),
    {
        proof {
            law_events_keep_the_ledger(self@, event);
        }
        match event {
            SenderEvent::Connect => {
                self.metadata.connected = true;
                nothing()
            },
            SenderEvent::Disconnect => {
                self.metadata.disconnected = true;
                nothing()
            },
            SenderEvent::SeatAdded(Some(seat)) => {
                self.metadata.seats.push(seat);
                SenderEffect { bind: true, references: 0, releases: 0 }
            },
            SenderEvent::DeviceAdded(Some((device, capabilities, metadata))) => {
                self.metadata.devices.push(metadata);
                let mut references: u8 = 0;
                if fill_slot(&mut self.pointer, device, capabilities, CAP_POINTER) {
                    references = references + 1;
                }
                if fill_slot(&mut self.keyboard, device, capabilities, CAP_KEYBOARD) {
                    references = references + 1;
                }
                if fill_slot(&mut self.button, device, capabilities, CAP_BUTTON) {
                    references = references + 1;
                }
                if fill_slot(&mut self.scroll, device, capabilities, CAP_SCROLL) {
                    references = references + 1;
                }
                SenderEffect { bind: false, references, releases: 0 }
            },
            SenderEvent::DeviceRemoved(device) => {
                drop_device(&mut self.resumed, device);
                drop_device(&mut self.emulating, device);
                let mut releases: u8 = 0;
                if release_matching(&mut self.pointer, device) {
                    releases = releases + 1;
                }
                if release_matching(&mut self.keyboard, device) {
                    releases = releases + 1;
                }
                if release_matching(&mut self.button, device) {
                    releases = releases + 1;
                }
                if release_matching(&mut self.scroll, device) {
                    releases = releases + 1;
                }
                self.pressed_keys.clear();
                self.pressed_buttons.clear();
                SenderEffect { bind: false, references: 0, releases }
            },
            SenderEvent::DevicePaused(device) => {
                drop_device(&mut self.resumed, device);
                drop_device(&mut self.emulating, device);
                if self.keyboard == Some(device) {
                    self.pressed_keys.clear();
                }
                if self.button == Some(device) {
                    self.pressed_buttons.clear();
                }
                nothing()
            },
            SenderEvent::DeviceResumed(device) => {
                if (self.pointer == Some(device) || self.keyboard == Some(device) || self.button
                    == Some(device) || self.scroll == Some(device)) && !contains_device(
                    &self.resumed,
                    device,
                ) {
                    self.resumed.push(device);
                }
                nothing()
            },
            _ => nothing(),
        }
    }

    /// Releases every held key and button and stops all active emulation.
    ///
    /// This is idempotent and the sender can be used again after devices
    /// resume.
    pub fn release_all(&mut self) -> (calls: Vec<SenderCall>)
        requires
            old(self)@.wf(),
        ensures
            final(self)@ == old(self)@.released(),
            final(self)@.wf(),
            calls@ == released_calls(old(self)@),
    {
        proof {
            law_release_is_complete_and_idempotent(self@);
        }
        let mut calls: Vec<SenderCall> = Vec::new();
        if let Some(keyboard) = self.keyboard {
            push_releases(&self.pressed_keys, keyboard, true, &mut calls);
            self.pressed_keys.clear();
        }
        let ghost keys = calls@;
        assert(keys =~= match old(self)@.keyboard {
            Some(device) => release_calls(old(self)@.keys, device, true),
            None => Seq::empty(),
        });
        if let Some(button) = self.button {
            push_releases(&self.pressed_buttons, button, false, &mut calls);
            self.pressed_buttons.clear();
        }
        let ghost both = calls@;
        assert(both =~= keys + match old(self)@.button {
            Some(device) => release_calls(old(self)@.buttons, device, false),
            None => Seq::empty(),
        });
        let mut i: usize = 0;
        let ghost stops = self.emulating@.map_values(
            |device: u64| SenderCall::StopEmulating { device },
        );
        while i < self.emulating.len()
            invariant
                i <= self.emulating.len(),
                stops == self.emulating@.map_values(
                    |device: u64| SenderCall::StopEmulating { device },
                ),
                calls@ == both + stops.take(i as int),
            decreases self.emulating.len() - i,
        {
            calls.push(SenderCall::StopEmulating { device: self.emulating[i] });
            assert(stops.take(i + 1) =~= stops.take(i as int).push(stops[i as int]));
            i = i + 1;
        }
        assert(stops.take(i as int) =~= stops);
        self.emulating = Vec::new();
        assert(self@.emulating =~= Seq::empty());
        calls
    }

    /// Gives up every device. The handles are those that a reference is held
    /// on, once for each reference.
    pub fn release_devices(&mut self) -> (handles: Vec<u64>)
        ensures
            final(self)@ == (SenderView {
                pointer: None,
                keyboard: None,
                button: None,
                scroll: None,
                resumed: Seq::empty(),
                ..old(self)@
            }),
            handles@ == held_handles(old(self)@),
    {
        let mut handles: Vec<u64> = Vec::new();
        release_slot(&mut self.pointer, &mut handles);
        release_slot(&mut self.keyboard, &mut handles);
        release_slot(&mut self.button, &mut handles);
        release_slot(&mut self.scroll, &mut handles);
        self.resumed = Vec::new();
        assert(self@.resumed =~= Seq::empty());
        assert(handles@ =~= held_handles(old(self)@));
        handles
    }
}

pub open spec fn slot_handles(slot: Option<u64>) -> Seq<u64> {
    match slot {
        Some(device) => seq![device],
        None => Seq::empty(),
    }
}

/// The devices that a sender holds references on.
pub open spec fn held_handles(sender: SenderView) -> Seq<u64> {
    slot_handles(sender.pointer) + slot_handles(sender.keyboard) + slot_handles(sender.button)
        + slot_handles(sender.scroll)
}

/// The calls that release everything a sender holds.
pub open spec fn released_calls(sender: SenderView) -> Seq<SenderCall> {
    (match sender.keyboard {
        Some(device) => release_calls(sender.keys, device, true),
        None => Seq::empty(),
    }) + (match sender.button {
        Some(device) => release_calls(sender.buttons, device, false),
        None => Seq::empty(),
    }) + sender.emulating.map_values(|device: u64| SenderCall::StopEmulating { device })
}

fn release_slot(slot: &mut Option<u64>, handles: &mut Vec<u64>)
    ensures
        *final(slot) is None,
        final(handles)@ == old(handles)@ + slot_handles(*old(slot)),
{
    if let Some(device) = *slot {
        handles.push(device);
    }
    *slot = None;
    assert(handles@ =~= old(handles)@ + slot_handles(*old(slot)));
}

pub open spec fn one_if(condition: bool) -> int {
    if condition {
        1
    } else {
        0
    }
}

/// What an event asks of the application.
pub open spec fn sender_effect(sender: SenderView, event: SenderEvent) -> SenderEffect {
    match event {
        SenderEvent::SeatAdded(Some(_)) => SenderEffect { bind: true, references: 0, releases: 0 },
        SenderEvent::DeviceAdded(Some((device, capabilities, _))) => SenderEffect {
            bind: false,
            references: (one_if(sender.pointer is None && capabilities & CAP_POINTER != 0) + one_if(
                sender.keyboard is None && capabilities & CAP_KEYBOARD != 0,
            ) + one_if(sender.button is None && capabilities & CAP_BUTTON != 0) + one_if(
                sender.scroll is None && capabilities & CAP_SCROLL != 0,
            )) as u8,
            releases: 0,
        },
        SenderEvent::DeviceRemoved(device) => SenderEffect {
            bind: false,
            references: 0,
            releases: (one_if(sender.pointer == Some(device)) + one_if(
                sender.keyboard == Some(device),
            ) + one_if(sender.button == Some(device)) + one_if(
                sender.scroll == Some(device),
            )) as u8,
        },
        _ => SenderEffect { bind: false, references: 0, releases: 0 },
    }
}

fn nothing() -> (effect: SenderEffect)
    ensures
        effect == (SenderEffect { bind: false, references: 0, releases: 0 }),
{
    SenderEffect { bind: false, references: 0, releases: 0 }
}

proof fn lemma_emulated(sender: SenderView, device: u64)
    requires
        sender.wf(),
        sender.resumed.contains(device),
    ensures
        sender.emulated(device).wf(),
        sender.emulated(device).emulating.contains(device),
        forall|d: u64| #[trigger]
            sender.emulating.contains(d) ==> sender.emulated(device).emulating.contains(d),
{
    let after = sender.emulated(device);
    if !sender.emulating.contains(device) {
        assert(after.emulating[sender.emulating.len() as int] == device);
        assert forall|d: u64| #[trigger] sender.emulating.contains(d) implies after.emulating.contains(
            d,
        ) by {
            let k = sender.emulating.index_of(d);
            assert(after.emulating[k] == d);
        }
    }
}

/// Adds the calls that release what is held on one device.
fn push_releases(pressed: &BTreeSet<u16>, device: u64, keys: bool, calls: &mut Vec<SenderCall>)
    ensures
        final(calls)@ == old(calls)@ + release_calls(pressed@, device, keys),
{
    let ghost turn = |code: u16|
        if keys {
            SenderCall::Key { device, code, pressed: false }
        } else {
            SenderCall::Button { device, code, pressed: false }
        };
    let codes = held_codes(pressed);
    let mut i: usize = 0;
    assert(codes@.take(0).map_values(turn) =~= Seq::<SenderCall>::empty());
    while i < codes.len()
        invariant
            i <= codes.len(),
            turn == (|code: u16|
                if keys {
                    SenderCall::Key { device, code, pressed: false }
                } else {
                    SenderCall::Button { device, code, pressed: false }
                }),
            calls@ == old(calls)@ + codes@.take(i as int).map_values(turn),
        decreases codes.len() - i,
    {
        let code: u16 = codes[i];
        if keys {
            calls.push(SenderCall::Key { device, code, pressed: false });
        } else {
            calls.push(SenderCall::Button { device, code, pressed: false });
        }
        assert(codes@.take(i + 1).map_values(turn) =~= codes@.take(i as int).map_values(turn).push(
            turn(code),
        ));
        i = i + 1;
    }
    assert(codes@.take(i as int) =~= codes@);
    if codes.len() > 0 {
        calls.push(SenderCall::Frame { device });
    }
    assert(crate::codes::held(pressed@).map_values(turn).len() == crate::codes::held(pressed@).len());
    assert(calls@ =~= old(calls)@ + release_calls(pressed@, device, keys));
}

/// Whether a device for something is there and was resumed.
pub open spec fn at_hand(sender: SenderView, slot: Option<u64>) -> bool {
    exists|i: int| 0 <= i < sender.resumed.len() && slot == Some(#[trigger] sender.resumed[i])
}

proof fn lemma_at_hand(sender: SenderView, slot: Option<u64>, capability: Seq<char>)
    ensures
        unready(sender, slot, capability) is None <==> at_hand(sender, slot),
{
    if let Some(device) = slot {
        if sender.resumed.contains(device) {
            let i = sender.resumed.index_of(device);
            assert(sender.resumed[i] == device);
        }
    }
}

/// Movement and scrolling are taken exactly if they go no further than 2048 units
/// along either axis and there is a device for them. A key is taken exactly if its
/// code is at most 0x2ff, there is a keyboard, and it is pressed while it is up or
/// let go while it is down; so is a button, from code 0x100 on.
pub proof fn law_which_input_is_taken(sender: SenderView, a: i32, b: i32, code: u16)
    ensures
        ({
            let near = -2048 <= a <= 2048 && -2048 <= b <= 2048;
            &&& relative_fault(sender, a, b) is None <==> near && at_hand(sender, sender.pointer)
            &&& scroll_fault(sender, a, b) is None <==> near && at_hand(sender, sender.scroll)
        }),
        key_fault(sender, code, InputState::Pressed) is None <==> code <= 0x2ff && at_hand(
            sender,
            sender.keyboard,
        ) && !sender.keys.contains(code),
        key_fault(sender, code, InputState::Released) is None <==> code <= 0x2ff && at_hand(
            sender,
            sender.keyboard,
        ) && sender.keys.contains(code),
        button_fault(sender, code, InputState::Pressed) is None <==> 0x100 <= code <= 0x2ff
            && at_hand(sender, sender.button) && !sender.buttons.contains(code),
        button_fault(sender, code, InputState::Released) is None <==> 0x100 <= code <= 0x2ff
            && at_hand(sender, sender.button) && sender.buttons.contains(code),
        InputState::Pressed.pressed(),
        !InputState::Released.pressed(),
        POINTER_TEST_DELTA == 2,
{
    lemma_at_hand(sender, sender.pointer, "relative-pointer"@);
    lemma_at_hand(sender, sender.scroll, "scroll"@);
    lemma_at_hand(sender, sender.keyboard, "keyboard"@);
    lemma_at_hand(sender, sender.button, "button"@);
}

/// A code is down after a transition exactly if that pressed it; the other codes
/// are as they were.
pub proof fn law_transitions_are_noted(pressed: Set<u16>, code: u16, other: u16)
    requires
        other != code,
    ensures
        transitioned(pressed, code, InputState::Pressed).contains(code),
        !transitioned(pressed, code, InputState::Released).contains(code),
        transitioned(pressed, code, InputState::Pressed).contains(other) <==> pressed.contains(
            other,
        ),
        transitioned(pressed, code, InputState::Released).contains(other) <==> pressed.contains(
            other,
        ),
        is_transition(pressed, code, InputState::Pressed) <==> !pressed.contains(code),
        is_transition(pressed, code, InputState::Released) <==> pressed.contains(code),
{
}

/// A device begins to emulate once, before its first input, under the number
/// after the last one, or one where there is none after it.
pub proof fn law_emulation_begins_once(sender: SenderView, device: u64, other: u64)
    requires
        other != device,
    ensures
        ({
            let after = sender.emulated(device);
            let calls = sender.start_calls(device);
            &&& after.emulating.contains(device)
            &&& after.start_calls(device).len() == 0
            &&& after.emulating.contains(other) <==> sender.emulating.contains(other)
            &&& sender.emulating.contains(device) ==> calls.len() == 0 && after == sender
            &&& !sender.emulating.contains(device) ==> calls.len() == 1 && (calls[0]
                matches SenderCall::StartEmulating { device: started, sequence } && started
                == device && sequence == after.sequence && sequence > 0 && (sequence
                == sender.sequence + 1 || (sequence == 1 && sender.sequence == u32::MAX)))
            &&& after.pointer == sender.pointer && after.keyboard == sender.keyboard
            &&& after.button == sender.button && after.scroll == sender.scroll
            &&& after.resumed == sender.resumed && after.keys == sender.keys
            &&& after.buttons == sender.buttons && after.metadata == sender.metadata
        }),
{
    let after = sender.emulated(device);
    if !sender.emulating.contains(device) {
        assert(after.emulating[sender.emulating.len() as int] == device);
        if sender.emulating.contains(other) {
            let i = sender.emulating.index_of(other);
            assert(after.emulating[i] == other);
        }
    }
}

proof fn lemma_release_calls(codes: Set<u16>, device: u64, keys: bool, code: u16)
    requires
        forall|c: u16| #[trigger] codes.contains(c) ==> c <= 0x2ff,
    ensures
        ({
            let calls = release_calls(codes, device, keys);
            let release = |c: u16|
                if keys {
                    SenderCall::Key { device, code: c, pressed: false }
                } else {
                    SenderCall::Button { device, code: c, pressed: false }
                };
            &&& codes.contains(code) ==> calls.contains(release(code)) && calls.last() == (
            SenderCall::Frame { device })
            &&& forall|i: int|
                0 <= i < calls.len() ==> (#[trigger] calls[i]) == (SenderCall::Frame { device })
                    || exists|c: u16| #[trigger] codes.contains(c) && calls[i] == release(c)
        }),
{
    let calls = release_calls(codes, device, keys);
    let release = |c: u16|
        if keys {
            SenderCall::Key { device, code: c, pressed: false }
        } else {
            SenderCall::Button { device, code: c, pressed: false }
        };
    let list = crate::codes::held(codes);
    crate::codes::law_held_names_every_code(codes);
    if codes.contains(code) {
        assert(list.to_set().contains(code));
        let i = choose|i: int| 0 <= i < list.len() && list[i] == code;
        assert(calls[i] == release(code));
    }
    assert forall|i: int| 0 <= i < calls.len() implies (#[trigger] calls[i]) == (
    SenderCall::Frame { device }) || exists|c: u16| #[trigger]
        codes.contains(c) && calls[i] == release(c) by {
        if i < list.len() {
            assert(list.to_set().contains(list[i]));
            assert(codes.contains(list[i]) && calls[i] == release(list[i]));
        }
    }
}

/// Releasing everything lets go of each key and each button that is down, on the
/// device it is held on, and stops each device that emulates.
pub proof fn law_everything_is_let_go(sender: SenderView, code: u16, device: u64)
    requires
        sender.wf(),
    ensures
        ({
            let calls = released_calls(sender);
            &&& sender.keys.contains(code) ==> (sender.keyboard matches Some(keyboard)
                && calls.contains(SenderCall::Key { device: keyboard, code, pressed: false })
                && calls.contains(SenderCall::Frame { device: keyboard }))
            &&& sender.buttons.contains(code) ==> (sender.button matches Some(button)
                && calls.contains(SenderCall::Button { device: button, code, pressed: false })
                && calls.contains(SenderCall::Frame { device: button }))
            &&& sender.emulating.contains(device) ==> calls.contains(
                SenderCall::StopEmulating { device },
            )
        }),
{
    let calls = released_calls(sender);
    let first = match sender.keyboard {
        Some(keyboard) => release_calls(sender.keys, keyboard, true),
        None => Seq::empty(),
    };
    let second = match sender.button {
        Some(button) => release_calls(sender.buttons, button, false),
        None => Seq::empty(),
    };
    let third = sender.emulating.map_values(|device: u64| SenderCall::StopEmulating { device });
    assert(calls =~= first + second + third);
    if sender.keys.contains(code) {
        let keyboard = sender.keyboard->0;
        lemma_release_calls(sender.keys, keyboard, true, code);
        let key = SenderCall::Key { device: keyboard, code, pressed: false };
        let i = choose|i: int| 0 <= i < first.len() && first[i] == key;
        assert(calls[i] == key);
        assert(calls[first.len() - 1] == first.last());
    }
    if sender.buttons.contains(code) {
        let button = sender.button->0;
        lemma_release_calls(sender.buttons, button, false, code);
        let up = SenderCall::Button { device: button, code, pressed: false };
        let i = choose|i: int| 0 <= i < second.len() && second[i] == up;
        assert(calls[first.len() + i] == up);
        assert(calls[first.len() + second.len() - 1] == second.last());
    }
    if sender.emulating.contains(device) {
        let i = sender.emulating.index_of(device);
        assert(third[i] == (SenderCall::StopEmulating { device }));
        assert(calls[first.len() + second.len() + i] == third[i]);
    }
}

/// Releasing everything does nothing else: it presses nothing, moves nothing and
/// lets go of nothing that is not down.
pub proof fn law_only_what_is_held_is_let_go(sender: SenderView, i: int)
    requires
        sender.wf(),
        0 <= i < released_calls(sender).len(),
    ensures
        match released_calls(sender)[i] {
            SenderCall::Key { device, code, pressed } => !pressed && sender.keys.contains(code)
                && sender.keyboard == Some(device),
            SenderCall::Button { device, code, pressed } => !pressed && sender.buttons.contains(
                code,
            ) && sender.button == Some(device),
            SenderCall::StopEmulating { device } => sender.emulating.contains(device),
            SenderCall::Frame { .. } => true,
            _ => false,
        },
{
    let calls = released_calls(sender);
    let first = match sender.keyboard {
        Some(keyboard) => release_calls(sender.keys, keyboard, true),
        None => Seq::empty(),
    };
    let second = match sender.button {
        Some(button) => release_calls(sender.buttons, button, false),
        None => Seq::empty(),
    };
    let third = sender.emulating.map_values(|device: u64| SenderCall::StopEmulating { device });
    assert(calls =~= first + second + third);
    if i < first.len() {
        lemma_release_calls(sender.keys, sender.keyboard->0, true, 0);
        assert(calls[i] == first[i]);
    } else if i < first.len() + second.len() {
        lemma_release_calls(sender.buttons, sender.button->0, false, 0);
        assert(calls[i] == second[i - first.len()]);
    } else {
        let k = i - first.len() - second.len();
        assert(calls[i] == third[k]);
        assert(sender.emulating.contains(sender.emulating[k]));
    }
}

/// A new device is used for whatever it can do and nothing does yet: it points
/// for bit 1, types for bit 4, clicks for bit 32 and scrolls for bit 16.
pub proof fn law_new_devices_fill_gaps(
    sender: SenderView,
    device: u64,
    capabilities: u32,
    metadata: DeviceMetadata,
)
    ensures
        ({
            let event = SenderEvent::DeviceAdded(Some((device, capabilities, metadata)));
            let after = sender.after(event);
            let put = |slot: Option<u64>, can: bool|
                if slot is None && can {
                    Some(device)
                } else {
                    slot
                };
            let new = |slot: Option<u64>, can: bool|
                if slot is None && can {
                    1int
                } else {
                    0
                };
            let points = capabilities % 2 == 1;
            let types = capabilities / 4 % 2 == 1;
            let clicks = capabilities / 32 % 2 == 1;
            let scrolls = capabilities / 16 % 2 == 1;
            &&& after.pointer == put(sender.pointer, points)
            &&& after.keyboard == put(sender.keyboard, types)
            &&& after.button == put(sender.button, clicks)
            &&& after.scroll == put(sender.scroll, scrolls)
            &&& after.resumed == sender.resumed && after.emulating == sender.emulating
            &&& after.keys == sender.keys && after.buttons == sender.buttons
            &&& after.metadata.devices == sender.metadata.devices.push(metadata)
            &&& sender_effect(sender, event).references == new(sender.pointer, points) + new(
                sender.keyboard,
                types,
            ) + new(sender.button, clicks) + new(sender.scroll, scrolls)
            &&& sender_effect(sender, event).releases == 0
            &&& !sender_effect(sender, event).bind
        }),
{
    assert((capabilities & 1 != 0) == (capabilities % 2 == 1) && (capabilities & 4 != 0) == (
    capabilities / 4 % 2 == 1) && (capabilities & 16 != 0) == (capabilities / 16 % 2 == 1) && (
    capabilities & 32 != 0) == (capabilities / 32 % 2 == 1)) by (bit_vector);
}

/// A device that is gone is used for nothing any more, and no other one is
/// affected; what was down is taken as let go.
pub proof fn law_lost_devices_leave_gaps(sender: SenderView, device: u64, other: u64)
    requires
        other != device,
    ensures
        ({
            let event = SenderEvent::DeviceRemoved(device);
            let after = sender.after(event);
            let was = |slot: Option<u64>|
                if slot == Some(device) {
                    1int
                } else {
                    0
                };
            &&& !after.holds(device)
            &&& !after.resumed.contains(device) && !after.emulating.contains(device)
            &&& after.holds(other) <==> sender.holds(other)
            &&& after.pointer == Some(other) <==> sender.pointer == Some(other)
            &&& after.keyboard == Some(other) <==> sender.keyboard == Some(other)
            &&& after.button == Some(other) <==> sender.button == Some(other)
            &&& after.scroll == Some(other) <==> sender.scroll == Some(other)
            &&& after.resumed.contains(other) <==> sender.resumed.contains(other)
            &&& after.emulating.contains(other) <==> sender.emulating.contains(other)
            &&& forall|code: u16| !(#[trigger] after.keys.contains(code))
            &&& forall|code: u16| !(#[trigger] after.buttons.contains(code))
            &&& sender_effect(sender, event).releases == was(sender.pointer) + was(sender.keyboard)
                + was(sender.button) + was(sender.scroll)
            &&& sender_effect(sender, event).references == 0
        }),
{
    lemma_without_exactly(sender.resumed, device, other);
    lemma_without_exactly(sender.emulating, device, other);
}

proof fn lemma_without_exactly(devices: Seq<u64>, device: u64, other: u64)
    requires
        other != device,
    ensures
        !without(devices, device).contains(device),
        without(devices, device).contains(other) <==> devices.contains(other),
    decreases devices.len(),
{
    if devices.len() > 0 {
        let front = devices.drop_last();
        let kept = without(devices, device);
        let before = without(front, device);
        lemma_without_exactly(front, device, other);
        if devices.contains(other) {
            let i = devices.index_of(other);
            if i < front.len() {
                assert(front[i] == other);
                let k = before.index_of(other);
                assert(kept[k] == other);
            } else {
                assert(kept[kept.len() - 1] == other);
            }
        }
        if kept.contains(other) {
            let k = kept.index_of(other);
            if k < before.len() {
                assert(before[k] == other);
                let i = front.index_of(other);
                assert(devices[i] == other);
            } else {
                assert(devices[devices.len() - 1] == other);
            }
        }
        if kept.contains(device) {
            let k = kept.index_of(device);
            if k < before.len() {
                assert(before[k] == device);
            }
        }
    }
}

/// A paused device is not used until it is resumed, and what was down on it is
/// taken as let go; only a device that is used for something can be resumed.
pub proof fn law_paused_devices_wait(sender: SenderView, device: u64, other: u64)
    requires
        other != device,
    ensures
        ({
            let paused = sender.after(SenderEvent::DevicePaused(device));
            let resumed = sender.after(SenderEvent::DeviceResumed(device));
            &&& !paused.resumed.contains(device) && !paused.emulating.contains(device)
            &&& paused.resumed.contains(other) <==> sender.resumed.contains(other)
            &&& paused.emulating.contains(other) <==> sender.emulating.contains(other)
            &&& paused.pointer == sender.pointer && paused.keyboard == sender.keyboard
            &&& paused.button == sender.button && paused.scroll == sender.scroll
            &&& forall|code: u16| #[trigger]
                paused.keys.contains(code) <==> sender.keys.contains(code) && sender.keyboard
                    != Some(device)
            &&& forall|code: u16| #[trigger]
                paused.buttons.contains(code) <==> sender.buttons.contains(code) && sender.button
                    != Some(device)
            &&& resumed.resumed.contains(device) <==> sender.resumed.contains(device)
                || sender.pointer == Some(device) || sender.keyboard == Some(device)
                || sender.button == Some(device) || sender.scroll == Some(device)
            &&& resumed.resumed.contains(other) <==> sender.resumed.contains(other)
            &&& resumed.emulating == sender.emulating
            &&& resumed.keys == sender.keys && resumed.buttons == sender.buttons
        }),
{
    lemma_without_exactly(sender.resumed, device, other);
    lemma_without_exactly(sender.emulating, device, other);
    let resumed = sender.after(SenderEvent::DeviceResumed(device));
    if sender.holds(device) && !sender.resumed.contains(device) {
        assert(resumed.resumed[sender.resumed.len() as int] == device);
        if sender.resumed.contains(other) {
            let i = sender.resumed.index_of(other);
            assert(resumed.resumed[i] == other);
        }
    }
}

/// Seats are noted and bound; the other events of the connection are noted.
pub proof fn law_the_connection_is_noted(sender: SenderView, seat: SeatMetadata, device: u64)
    ensures
        sender.after(SenderEvent::Connect).metadata.connected,
        sender.after(SenderEvent::Disconnect).metadata.disconnected,
        sender.after(SenderEvent::SeatAdded(Some(seat))).metadata.seats
            == sender.metadata.seats.push(seat),
        sender_effect(sender, SenderEvent::SeatAdded(Some(seat))).bind,
        sender.after(SenderEvent::SeatAdded(None)) == sender,
        sender.after(SenderEvent::DeviceAdded(None)) == sender,
        sender.after(SenderEvent::Other) == sender,
        ({
            let quiet = SenderEffect { bind: false, references: 0, releases: 0 };
            &&& sender_effect(sender, SenderEvent::Connect) == quiet
            &&& sender_effect(sender, SenderEvent::Disconnect) == quiet
            &&& sender_effect(sender, SenderEvent::SeatAdded(None)) == quiet
            &&& sender_effect(sender, SenderEvent::DeviceAdded(None)) == quiet
            &&& sender_effect(sender, SenderEvent::DevicePaused(device)) == quiet
            &&& sender_effect(sender, SenderEvent::DeviceResumed(device)) == quiet
        }),
{
}

/// References are held for each use of a device.
pub proof fn law_references_are_held_for_each_use(sender: SenderView, device: u64)
    ensures
        held_handles(sender).contains(device) <==> sender.holds(device),
        held_handles(sender).len() == one_if(sender.pointer is Some) + one_if(
            sender.keyboard is Some,
        ) + one_if(sender.button is Some) + one_if(sender.scroll is Some),
        one_if(true) == 1,
        one_if(false) == 0,
{
    let a = slot_handles(sender.pointer);
    let b = slot_handles(sender.keyboard);
    let c = slot_handles(sender.button);
    let d = slot_handles(sender.scroll);
    let all = held_handles(sender);
    if sender.pointer == Some(device) {
        assert(all[0] == device);
    }
    if sender.keyboard == Some(device) {
        assert(all[a.len() as int] == device);
    }
    if sender.button == Some(device) {
        assert(all[(a.len() + b.len()) as int] == device);
    }
    if sender.scroll == Some(device) {
        assert(all[(a.len() + b.len() + c.len()) as int] == device);
    }
}

/// A refusal has the kind and the words of its fault.
pub proof fn law_refusals_say_why(error: BackendError, fault: (BackendErrorKind, Seq<char>))
    ensures
        refused::<()>(Err(error), fault) <==> error.kind == fault.0 && error.message@ == fault.1,
        !refused::<()>(Ok(()), fault),
{
}

} // verus!
