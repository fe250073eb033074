//! Two-finger pinch gestures on a touch surface.
//!
//! Contacts are followed here and turned into Ctrl+scroll zoom input, the
//! desktop-native zoom convention. How far two contacts are apart is measured
//! by the caller, who says by how many whole zoom steps it has changed.
use std::collections::BTreeMap;

use vstd::prelude::*;

use crate::protocol::WireInputEvent;

verus! {

broadcast use {vstd::std_specs::btree::group_btree_axioms, vstd::laws_cmp::group_laws_cmp};

pub const EV_KEY: u16 = 1;

pub const EV_REL: u16 = 2;

pub const KEY_LEFTCTRL: u16 = 29;

pub const REL_WHEEL: u16 = 8;

/// Wheel units in one zoom step.
pub const ZOOM_UNITS: i32 = 120;

/// Most zoom steps that one wheel event can carry.
pub const MAX_ZOOM_STEPS: i32 = 17_895_697;

/// The contacts in a list.
pub open spec fn contact_map(list: Seq<(u32, (u16, u16))>) -> Map<u32, (u16, u16)>
    decreases list.len(),
{
    if list.len() == 0 {
        Map::empty()
    } else {
        contact_map(list.drop_last()).insert(list.last().0, list.last().1)
    }
}

pub open spec fn distinct_ids(list: Seq<(u32, (u16, u16))>) -> bool {
    forall|i: int, j: int|
        0 <= i < j < list.len() ==> (#[trigger] list[i]).0 != (#[trigger] list[j]).0
}

proof fn lemma_contact_map(list: Seq<(u32, (u16, u16))>)
    requires
        distinct_ids(list),
    ensures
        contact_map(list).dom().finite(),
        contact_map(list).dom().len() == list.len(),
        forall|i: int|
            0 <= i < list.len() ==> contact_map(list).contains_key((#[trigger] list[i]).0)
                && contact_map(list)[list[i].0] == list[i].1,
        forall|id: u32| #[trigger]
            contact_map(list).contains_key(id) ==> exists|i: int|
                0 <= i < list.len() && (#[trigger] list[i]).0 == id,
    decreases list.len(),
{
    if list.len() > 0 {
        let rest = list.drop_last();
        let last = list.last();
        assert(forall|i: int| 0 <= i < rest.len() ==> rest[i] == list[i]);
        lemma_contact_map(rest);
        assert(!contact_map(rest).contains_key(last.0)) by {
            if contact_map(rest).contains_key(last.0) {
                let i = choose|i: int| 0 <= i < rest.len() && (#[trigger] rest[i]).0 == last.0;
                assert(list[i].0 != list[list.len() - 1].0);
            }
        }
        assert(contact_map(list).dom() =~= contact_map(rest).dom().insert(last.0));
        assert forall|i: int| 0 <= i < list.len() implies contact_map(list).contains_key(
            (#[trigger] list[i]).0,
        ) && contact_map(list)[list[i].0] == list[i].1 by {
            if i < rest.len() {
                assert(rest[i] == list[i]);
                assert(list[i].0 != list[list.len() - 1].0);
            }
        }
        assert forall|id: u32| #[trigger] contact_map(list).contains_key(id) implies exists|i: int|
            0 <= i < list.len() && (#[trigger] list[i]).0 == id by {
            if id == last.0 {
                assert(list[list.len() - 1].0 == id);
            } else {
                let i = choose|i: int| 0 <= i < rest.len() && (#[trigger] rest[i]).0 == id;
                assert(list[i].0 == id);
            }
        }
    } else {
        assert(contact_map(list).dom() =~= Set::<u32>::empty());
    }
}

/// Two lists with the same entries hold the same contacts.
proof fn lemma_same_contacts(list: Seq<(u32, (u16, u16))>, contacts: Map<u32, (u16, u16)>)
    requires
        distinct_ids(list),
        forall|i: int|
            0 <= i < list.len() ==> contacts.contains_key((#[trigger] list[i]).0)
                && contacts[list[i].0] == list[i].1,
        forall|id: u32| #[trigger]
            contacts.contains_key(id) ==> exists|i: int|
                0 <= i < list.len() && (#[trigger] list[i]).0 == id,
    ensures
        contact_map(list) == contacts,
{
    lemma_contact_map(list);
    let made = contact_map(list);
    assert forall|id: u32| made.contains_key(id) == contacts.contains_key(id) by {
        if made.contains_key(id) {
            let i = choose|i: int| 0 <= i < list.len() && (#[trigger] list[i]).0 == id;
            assert(contacts.contains_key(list[i].0));
        }
        if contacts.contains_key(id) {
            let i = choose|i: int| 0 <= i < list.len() && (#[trigger] list[i]).0 == id;
            assert(made.contains_key(list[i].0));
        }
    }
    assert forall|id: u32| #[trigger] made.contains_key(id) implies made[id] == contacts[id] by {
        let i = choose|i: int| 0 <= i < list.len() && (#[trigger] list[i]).0 == id;
        assert(made[list[i].0] == list[i].1);
    }
    assert(made =~= contacts);
}

/// Touch contacts by their id.
#[derive(Debug, Clone)]
pub struct PinchContacts {
    list: Vec<(u32, (u16, u16))>,
}

impl View for PinchContacts {
    type V = Map<u32, (u16, u16)>;

    closed spec fn view(&self) -> Map<u32, (u16, u16)> {
        contact_map(self.list@)
    }
}

impl PinchContacts {
    /// No contact is listed twice.
    pub closed spec fn wf(&self) -> bool {
        distinct_ids(self.list@)
    }

    pub fn new() -> (contacts: PinchContacts)
        ensures
            contacts.wf(),
            contacts@ == Map::<u32, (u16, u16)>::empty(),
    {
        PinchContacts { list: Vec::new() }
    }

    fn position(&self, id: u32) -> (at: Option<usize>)
        requires
            self.wf(),
        ensures
            match at {
                Some(i) => i < self.list@.len() && self.list@[i as int].0 == id
                    && self@.contains_key(id),
                None => !self@.contains_key(id) && forall|j: int|
                    0 <= j < self.list@.len() ==> (#[trigger] self.list@[j]).0 != id,
            },
    {
        proof {
            lemma_contact_map(self.list@);
        }
        let mut i: usize = 0;
        while i < self.list.len()
            invariant
                i <= self.list.len(),
                forall|j: int| 0 <= j < i ==> (#[trigger] self.list@[j]).0 != id,
            decreases self.list.len() - i,
        {
            if self.list[i].0 == id {
                assert(contact_map(self.list@).contains_key(self.list@[i as int].0)) by {
                    lemma_in_map(self.list@, i as int);
                }
                return Some(i);
            }
            i = i + 1;
        }
        None
    }

    /// Puts a contact down, or moves it if it is down already.
    pub fn down(&mut self, id: u32, x: u16, y: u16)
        requires
            old(self).wf(),
        ensures
            final(self).wf(),
            final(self)@ == old(self)@.insert(id, (x, y)),
    {
        if self.motion(id, x, y) {
            return;
        }
        proof {
            lemma_contact_map(self.list@);
        }
        self.list.push((id, (x, y)));
        proof {
            let before = old(self).list@;
            let after = self.list@;
            assert(after.drop_last() =~= before);
            assert forall|i: int, j: int| 0 <= i < j < after.len() implies (#[trigger] after[i]).0
                != (#[trigger] after[j]).0 by {
                if j == before.len() {
                    lemma_in_map(before, i);
                }
            }
        }
    }

    /// Moves a contact; true if it is down.
    pub fn motion(&mut self, id: u32, x: u16, y: u16) -> (known: bool)
        requires
            old(self).wf(),
        ensures
            final(self).wf(),
            known == old(self)@.contains_key(id),
            final(self)@ == if known {
                old(self)@.insert(id, (x, y))
            } else {
                old(self)@
            },
            !known ==> *final(self) == *old(self),
    {
        match self.position(id) {
            Some(i) => {
                let ghost before = self.list@;
                self.list.set(i, (id, (x, y)));
                proof {
                    lemma_contact_map(before);
                    let after = self.list@;
                    let moved = contact_map(before).insert(id, (x, y));
                    assert forall|k: int, j: int| 0 <= k < j < after.len() implies (
                    #[trigger] after[k]).0 != (#[trigger] after[j]).0 by {
                        assert(before[k].0 != before[j].0);
                    }
                    assert forall|k: int| 0 <= k < after.len() implies moved.contains_key(
                        (#[trigger] after[k]).0,
                    ) && moved[after[k].0] == after[k].1 by {
                        assert(contact_map(before).contains_key(before[k].0));
                        if k != i {
                            if k < i {
                                assert(before[k].0 != before[i as int].0);
                            } else {
                                assert(before[i as int].0 != before[k].0);
                            }
                        }
                    }
                    assert forall|other: u32| #[trigger] moved.contains_key(other) implies exists|
                        k: int,
                    |
                        0 <= k < after.len() && (#[trigger] after[k]).0 == other by {
                        if other == id {
                            assert(after[i as int].0 == other);
                        } else {
                            let k = choose|k: int|
                                0 <= k < before.len() && (#[trigger] before[k]).0 == other;
                            assert(after[k].0 == other);
                        }
                    }
                    lemma_same_contacts(after, moved);
                }
                true
            },
            None => false,
        }
    }

    /// Lifts a contact.
    pub fn up(&mut self, id: u32)
        requires
            old(self).wf(),
        ensures
            final(self).wf(),
            final(self)@ == old(self)@.remove(id),
    {
        match self.position(id) {
            Some(i) => {
                let ghost before = self.list@;
                self.list.remove(i);
                proof {
                    lemma_contact_map(before);
                    let after = self.list@;
                    assert(after =~= before.remove(i as int));
                    let left = contact_map(before).remove(id);
                    assert forall|k: int, j: int| 0 <= k < j < after.len() implies (
                    #[trigger] after[k]).0 != (#[trigger] after[j]).0 by {
                        let a = if k < i {
                            k
                        } else {
                            k + 1
                        };
                        let b = if j < i {
                            j
                        } else {
                            j + 1
                        };
                        assert(before[a].0 != before[b].0);
                    }
                    assert forall|k: int| 0 <= k < after.len() implies left.contains_key(
                        (#[trigger] after[k]).0,
                    ) && left[after[k].0] == after[k].1 by {
                        let a = if k < i {
                            k
                        } else {
                            k + 1
                        };
                        assert(after[k] == before[a]);
                        assert(contact_map(before).contains_key(before[a].0));
                        if a < i {
                            assert(before[a].0 != before[i as int].0);
                        } else {
                            assert(before[i as int].0 != before[a].0);
                        }
                    }
                    assert forall|other: u32| #[trigger] left.contains_key(other) implies exists|
                        k: int,
                    |
                        0 <= k < after.len() && (#[trigger] after[k]).0 == other by {
                        let a = choose|a: int|
                            0 <= a < before.len() && (#[trigger] before[a]).0 == other;
                        let k = if a < i {
                            a
                        } else {
                            a - 1
                        };
                        assert(after[k] == before[a]);
                    }
                    lemma_same_contacts(after, left);
                }
            },
            None => {
                assert(self@.remove(id) =~= self@);
            },
        }
    }

    /// Number of contacts.
    pub fn count(&self) -> (count: usize)
        requires
            self.wf(),
        ensures
            count == self@.dom().len(),
            self@.dom().finite(),
    {
        proof {
            lemma_contact_map(self.list@);
        }
        self.list.len()
    }

    /// The positions of the two contacts, if there are just two.
    pub fn pair(&self) -> (pair: Option<((u16, u16), (u16, u16))>)
        requires
            self.wf(),
        ensures
            match pair {
                Some((first, second)) => is_pair(self@, first, second),
                None => self@.dom().len() != 2,
            },
    {
        proof {
            lemma_contact_map(self.list@);
        }
        if self.list.len() != 2 {
            return None;
        }
        let first = self.list[0].1;
        let second = self.list[1].1;
        proof {
            let list = self.list@;
            let (a, b) = (list[0].0, list[1].0);
            assert(a != b);
            lemma_same_contacts(list, two_contacts(a, first, b, second));
            assert(a != b && self@ == two_contacts(a, first, b, second));
        }
        Some((first, second))
    }
}

/// Just two contacts.
pub open spec fn two_contacts(a: u32, first: (u16, u16), b: u32, second: (u16, u16)) -> Map<
    u32,
    (u16, u16),
> {
    Map::<u32, (u16, u16)>::empty().insert(a, first).insert(b, second)
}

/// Whether there are just two contacts, at these positions.
pub open spec fn is_pair(
    contacts: Map<u32, (u16, u16)>,
    first: (u16, u16),
    second: (u16, u16),
) -> bool {
    exists|a: u32, b: u32| a != b && contacts == #[trigger] two_contacts(a, first, b, second)
}

proof fn lemma_in_map(list: Seq<(u32, (u16, u16))>, i: int)
    requires
        0 <= i < list.len(),
    ensures
        contact_map(list).contains_key(list[i].0),
    decreases list.len(),
{
    if i < list.len() - 1 {
        lemma_in_map(list.drop_last(), i);
        assert(list.drop_last()[i] == list[i]);
    }
}

pub open spec fn wire_event(event_type: u16, code: u16, value: i32) -> WireInputEvent {
    WireInputEvent { event_type, code, value }
}

/// What a pinch tracker knows.
pub struct PinchView {
    pub contacts: Map<u32, (u16, u16)>,
    /// Whether the control key is held for zooming.
    pub control_held: bool,
}

impl PinchView {
    pub open spec fn idle() -> PinchView {
        PinchView { contacts: Map::empty(), control_held: false }
    }

    /// The control key is held only while at least two fingers are down.
    pub open spec fn wf(self) -> bool {
        &&& self.contacts.dom().finite()
        &&& self.control_held ==> self.contacts.dom().len() >= 2
    }

    pub open spec fn after_down(self, id: u32, x: u16, y: u16) -> PinchView {
        PinchView { contacts: self.contacts.insert(id, (x, y)), ..self }
    }

    /// Whether a movement zooms.
    pub open spec fn zooms(self, id: u32, steps: i32) -> bool {
        self.contacts.contains_key(id) && self.contacts.dom().len() == 2 && steps != 0
    }

    pub open spec fn after_motion(self, id: u32, x: u16, y: u16, steps: i32) -> PinchView {
        PinchView {
            contacts: if self.contacts.contains_key(id) {
                self.contacts.insert(id, (x, y))
            } else {
                self.contacts
            },
            control_held: self.control_held || self.zooms(id, steps),
        }
    }

    pub open spec fn motion_events(self, id: u32, steps: i32) -> Seq<WireInputEvent> {
        if !self.zooms(id, steps) {
            Seq::empty()
        } else if self.control_held {
            seq![wire_event(EV_REL, REL_WHEEL, (steps * ZOOM_UNITS) as i32)]
        } else {
            seq![
                wire_event(EV_KEY, KEY_LEFTCTRL, 1),
                wire_event(EV_REL, REL_WHEEL, (steps * ZOOM_UNITS) as i32),
            ]
        }
    }

    /// Whether lifting a finger ends the zoom.
    pub open spec fn ends(self, id: u32) -> bool {
        self.control_held && self.contacts.remove(id).dom().len() < 2
    }

    pub open spec fn after_up(self, id: u32) -> PinchView {
        PinchView {
            contacts: self.contacts.remove(id),
            control_held: self.control_held && !self.ends(id),
        }
    }

    pub open spec fn up_events(self, id: u32) -> Seq<WireInputEvent> {
        if self.ends(id) {
            seq![wire_event(EV_KEY, KEY_LEFTCTRL, 0)]
        } else {
            Seq::empty()
        }
    }
}

/// Converts two-finger distance changes into Ctrl+scroll zoom input. The
/// original touch contacts still travel over the touch path for applications
/// that consume touchscreen input directly.
#[derive(Debug, Clone)]
pub struct PinchZoomTracker {
    contacts: PinchContacts,
    control_held: bool,
}

impl View for PinchZoomTracker {
    type V = PinchView;

    closed spec fn view(&self) -> PinchView {
        PinchView { contacts: self.contacts@, control_held: self.control_held }
    }
}

impl PinchZoomTracker {
    pub closed spec fn wf(&self) -> bool {
        self.contacts.wf() && self@.wf()
    }

    pub fn new() -> (tracker: PinchZoomTracker)
        ensures
            tracker.wf(),
            tracker@ == PinchView::idle(),
    {
        PinchZoomTracker { contacts: PinchContacts::new(), control_held: false }
    }

    pub fn down(&mut self, id: u32, x: u16, y: u16) -> (events: Vec<WireInputEvent>)
        requires
            old(self).wf(),
        ensures
            final(self).wf(),
            final(self)@ == old(self)@.after_down(id, x, y),
            events@.len() == 0,
    {
        proof {
            assert(self.contacts@.insert(id, (x, y)).dom() =~= self.contacts@.dom().insert(id));
        }
        self.contacts.down(id, x, y);
        Vec::new()
    }

    /// A contact moves, and with it the distance of two contacts by `steps`
    /// zoom steps.
    pub fn motion(&mut self, id: u32, x: u16, y: u16, steps: i32) -> (events: Vec<WireInputEvent>)
        requires
            old(self).wf(),
            -MAX_ZOOM_STEPS <= steps <= MAX_ZOOM_STEPS,
        ensures
            final(self).wf(),
            final(self)@ == old(self)@.after_motion(id, x, y, steps),
            events@ == old(self)@.motion_events(id, steps),
    {
        let mut events: Vec<WireInputEvent> = Vec::new();
        if !self.contacts.motion(id, x, y) {
            assert(events@ =~= old(self)@.motion_events(id, steps));
            return events;
        }
        proof {
            assert(old(self).contacts@.insert(id, (x, y)).dom() =~= old(self).contacts@.dom());
        }
        if self.contacts.count() != 2 || steps == 0 {
            assert(events@ =~= old(self)@.motion_events(id, steps));
            return events;
        }
        if !self.control_held {
            self.control_held = true;
            events.push(WireInputEvent { event_type: EV_KEY, code: KEY_LEFTCTRL, value: 1 });
        }
        events.push(
            WireInputEvent { event_type: EV_REL, code: REL_WHEEL, value: steps * ZOOM_UNITS },
        );
        assert(events@ =~= old(self)@.motion_events(id, steps));
        events
    }

    pub fn up(&mut self, id: u32) -> (events: Vec<WireInputEvent>)
        requires
            old(self).wf(),
        ensures
            final(self).wf(),
            final(self)@ == old(self)@.after_up(id),
            events@ == old(self)@.up_events(id),
    {
        self.contacts.up(id);
        let mut events: Vec<WireInputEvent> = Vec::new();
        if self.contacts.count() < 2 && self.control_held {
            self.control_held = false;
            events.push(WireInputEvent { event_type: EV_KEY, code: KEY_LEFTCTRL, value: 0 });
        }
        assert(events@ =~= old(self)@.up_events(id));
        events
    }
}

/// The control key that zooming presses is let go of no later than the finger
/// that ends the pinch: with fewer than two fingers down it is not held.
pub proof fn law_control_is_not_left_held(pinch: PinchView, id: u32)
    requires
        pinch.wf(),
    ensures
        pinch.after_up(id).wf(),
        pinch.after_up(id).contacts.dom().len() < 2 ==> !pinch.after_up(id).control_held,
        pinch.control_held && !pinch.after_up(id).control_held ==> pinch.up_events(id)
            == seq![wire_event(EV_KEY, KEY_LEFTCTRL, 0)],
{
    assert(pinch.contacts.remove(id).dom() =~= pinch.contacts.dom().remove(id));
}

pub const ABS_MT_SLOT: u16 = 0x2f;

pub const ABS_MT_POSITION_X: u16 = 0x35;

pub const ABS_MT_POSITION_Y: u16 = 0x36;

pub const ABS_MT_TRACKING_ID: u16 = 0x39;

/// A coordinate within its range.
pub open spec fn clamped(value: int, minimum: int, maximum: int) -> int {
    if value < minimum {
        minimum
    } else if value > maximum {
        maximum
    } else {
        value
    }
}

/// A coordinate of a surface, scaled to the whole range of the wire.
pub open spec fn normalized(value: int, range: (i32, i32)) -> int {
    (clamped(value, range.0 as int, range.1 as int) - range.0) * 65535 / (range.1 - range.0)
}

/// A range of which every coordinate has a place on the wire.
pub open spec fn is_range(range: (i32, i32)) -> bool {
    range.0 < range.1 && range.1 - range.0 <= i32::MAX
}

pub proof fn law_normalizing_spans_the_wire(value: int, range: (i32, i32))
    requires
        is_range(range),
    ensures
        0 <= normalized(value, range) <= 65535,
        value <= range.0 ==> normalized(value, range) == 0,
        value >= range.1 ==> normalized(value, range) == 65535,
{
    let width = range.1 - range.0;
    let offset = clamped(value, range.0 as int, range.1 as int) - range.0;
    assert(0 <= offset * 65535 <= width * 65535) by (nonlinear_arith)
        requires
            0 <= offset <= width,
    ;
    vstd::arithmetic::div_mod::lemma_div_pos_is_pos(offset * 65535, width);
    vstd::arithmetic::div_mod::lemma_div_is_ordered(offset * 65535, width * 65535, width);
    vstd::arithmetic::div_mod::lemma_div_multiples_vanish(65535, width);
    assert(width * 65535 == 65535 * width);
    vstd::arithmetic::div_mod::lemma_div_basics(width);
}

pub fn normalize_trackpad_coordinate(value: i32, range: (i32, i32)) -> (coordinate: u16)
    requires
        is_range(range),
    ensures
        coordinate == normalized(value as int, range),
{
    let bounded: i32 = if value < range.0 {
        range.0
    } else if value > range.1 {
        range.1
    } else {
        value
    };
    let width: i64 = (range.1 - range.0) as i64;
    let offset: i64 = (bounded - range.0) as i64;
    proof {
        law_normalizing_spans_the_wire(value as int, range);
        assert(offset * 65535 <= 0x7fff_ffff * 65535) by (nonlinear_arith)
            requires
                0 <= offset <= 0x7fff_ffff,
        ;
    }
    ((offset * 65535) / width) as u16
}

/// A contact of the surface, as far as it was reported.
#[derive(Debug, Clone, Copy, PartialEq, Eq, Structural)]
pub struct RawTrackpadContact {
    pub id: u32,
    pub x: Option<i32>,
    pub y: Option<i32>,
    /// Whether it was handed on.
    pub forwarded: bool,
}

/// What a report does to the contacts that are handed on.
#[derive(Debug, Clone, Copy, PartialEq, Eq, Structural)]
pub enum PinchInput {
    Down { id: u32, x: u16, y: u16 },
    Motion { id: u32, x: u16, y: u16 },
    Up { id: u32 },
}

/// What is known of a surface.
pub struct TrackpadView {
    pub slot: u64,
    pub contacts: Map<u64, RawTrackpadContact>,
    pub x_range: (i32, i32),
    pub y_range: (i32, i32),
}

impl TrackpadView {
    pub open spec fn wf(self) -> bool {
        is_range(self.x_range) && is_range(self.y_range)
    }

    /// The contact of the current slot with one more coordinate.
    pub open spec fn moved(self, code: u16, value: i32) -> RawTrackpadContact {
        let contact = self.contacts[self.slot];
        if code == ABS_MT_POSITION_X {
            RawTrackpadContact { x: Some(value), ..contact }
        } else {
            RawTrackpadContact { y: Some(value), ..contact }
        }
    }

    pub open spec fn is_position(self, code: u16) -> bool {
        (code == ABS_MT_POSITION_X || code == ABS_MT_POSITION_Y) && self.contacts.contains_key(
            self.slot,
        )
    }

    /// The state after a report.
    pub open spec fn after(self, code: u16, value: i32) -> TrackpadView {
        if code == ABS_MT_SLOT && value >= 0 {
            TrackpadView { slot: value as u64, ..self }
        } else if code == ABS_MT_TRACKING_ID && value < 0 {
            TrackpadView { contacts: self.contacts.remove(self.slot), ..self }
        } else if code == ABS_MT_TRACKING_ID {
            TrackpadView {
                contacts: self.contacts.insert(
                    self.slot,
                    RawTrackpadContact { id: value as u32, x: None, y: None, forwarded: false },
                ),
                ..self
            }
        } else if self.is_position(code) {
            let contact = self.moved(code, value);
            TrackpadView {
                contacts: self.contacts.insert(
                    self.slot,
                    RawTrackpadContact {
                        forwarded: contact.forwarded || (contact.x is Some && contact.y is Some),
                        ..contact
                    },
                ),
                ..self
            }
        } else {
            self
        }
    }

    /// What a report hands on.
    pub open spec fn input(self, code: u16, value: i32) -> Option<PinchInput> {
        if code == ABS_MT_TRACKING_ID && value < 0 && self.contacts.contains_key(self.slot)
            && self.contacts[self.slot].forwarded {
            Some(PinchInput::Up { id: self.contacts[self.slot].id })
        } else if self.is_position(code) {
            let contact = self.moved(code, value);
            match (contact.x, contact.y) {
                (Some(x), Some(y)) => {
                    let x = normalized(x as int, self.x_range) as u16;
                    let y = normalized(y as int, self.y_range) as u16;
                    if contact.forwarded {
                        Some(PinchInput::Motion { id: contact.id, x, y })
                    } else {
                        Some(PinchInput::Down { id: contact.id, x, y })
                    }
                },
                _ => None,
            }
        } else {
            None
        }
    }
}

/// A trackpad's raw multitouch contacts. This supplements the portal path; it
/// never grabs the device or forwards pointer or button data.
pub struct RawTrackpadPinchCapture {
    current_slot: u64,
    contacts: BTreeMap<u64, RawTrackpadContact>,
    x_range: (i32, i32),
    y_range: (i32, i32),
}

impl View for RawTrackpadPinchCapture {
    type V = TrackpadView;

    closed spec fn view(&self) -> TrackpadView {
        TrackpadView {
            slot: self.current_slot,
            contacts: self.contacts@,
            x_range: self.x_range,
            y_range: self.y_range,
        }
    }
}

impl RawTrackpadPinchCapture {
    /// Follows a surface with these coordinate ranges, if they can be scaled.
    pub fn new(x_range: (i32, i32), y_range: (i32, i32)) -> (capture: Option<
        RawTrackpadPinchCapture,
    >)
        ensures
            match capture {
                Some(capture) => capture@ == (TrackpadView {
                    slot: 0,
                    contacts: Map::empty(),
                    x_range,
                    y_range,
                }) && capture@.wf(),
                None => !is_range(x_range) || !is_range(y_range),
            },
    {
        let wide: i64 = x_range.1 as i64 - x_range.0 as i64;
        let high: i64 = y_range.1 as i64 - y_range.0 as i64;
        if wide <= 0 || high <= 0 || wide > 0x7fff_ffff || high > 0x7fff_ffff {
            return None;
        }
        Some(
            RawTrackpadPinchCapture {
                current_slot: 0,
                contacts: BTreeMap::new(),
                x_range,
                y_range,
            },
        )
    }

    /// Forgets all contacts. Fingers that were already down before an edge
    /// crossing are no new gesture.
    pub fn reset(&mut self)
        ensures
            final(self)@ == (TrackpadView { slot: 0, contacts: Map::empty(), ..old(self)@ }),
    {
        self.current_slot = 0;
        self.contacts.clear();
    }

    /// Takes in one absolute-axis report.
    pub fn process(&mut self, code: u16, value: i32) -> (input: Option<PinchInput>)
        requires
            old(self)@.wf(),
        ensures
            final(self)@ == old(self)@.after(code, value),
            final(self)@.wf(),
            input == old(self)@.input(code, value),
    {
        if code == ABS_MT_SLOT && value >= 0 {
            self.current_slot = value as u64;
            return None;
        }
        if code == ABS_MT_TRACKING_ID {
            if value < 0 {
                let removed = self.contacts.remove(&self.current_slot);
                assert(self.contacts@ =~= old(self)@.contacts.remove(old(self)@.slot));
                return match removed {
                    Some(contact) if contact.forwarded => Some(PinchInput::Up { id: contact.id }),
                    _ => None,
                };
            }
            self.contacts.insert(
                self.current_slot,
                RawTrackpadContact { id: value as u32, x: None, y: None, forwarded: false },
            );
            return None;
        }
        if code != ABS_MT_POSITION_X && code != ABS_MT_POSITION_Y {
            return None;
        }
        let mut contact = match self.contacts.get(&self.current_slot) {
            Some(contact) => *contact,
            None => {
                return None;
            },
        };
        if code == ABS_MT_POSITION_X {
            contact.x = Some(value);
        } else {
            contact.y = Some(value);
        }
        let mut input: Option<PinchInput> = None;
        if let (Some(x), Some(y)) = (contact.x, contact.y) {
            let x: u16 = normalize_trackpad_coordinate(x, self.x_range);
            let y: u16 = normalize_trackpad_coordinate(y, self.y_range);
            if contact.forwarded {
                input = Some(PinchInput::Motion { id: contact.id, x, y });
            } else {
                contact.forwarded = true;
                input = Some(PinchInput::Down { id: contact.id, x, y });
            }
        }
        self.contacts.insert(self.current_slot, contact);
        input
    }
}

/// While just two fingers are down, every change of their distance zooms: by 120
/// wheel units for each step, with the control key pressed first if it is not
/// held yet. Nothing else zooms.
pub proof fn law_two_fingers_zoom(pinch: PinchView, id: u32, x: u16, y: u16, steps: i32)
    requires
        -17_895_697 <= steps <= 17_895_697,
    ensures
        ({
            let events = pinch.motion_events(id, steps);
            let zooming = pinch.contacts.dom().contains(id) && pinch.contacts.dom().len() == 2
                && steps != 0;
            &&& zooming ==> events.len() == (if pinch.control_held {
                1int
            } else {
                2
            }) && events.last().event_type == 2 && events.last().code == 8 && events.last().value
                == 120 * steps && (!pinch.control_held ==> events[0].event_type == 1
                && events[0].code == 29 && events[0].value == 1)
            &&& !zooming ==> events.len() == 0
            &&& pinch.after_motion(id, x, y, steps).control_held <==> pinch.control_held || zooming
        }),
{
}

/// A finger is where it was last seen, the others stay where they are, and a
/// finger that was never put down is not followed.
pub proof fn law_fingers_are_followed(
    pinch: PinchView,
    id: u32,
    x: u16,
    y: u16,
    steps: i32,
    other: u32,
)
    requires
        other != id,
    ensures
        ({
            let down = pinch.after_down(id, x, y);
            let moved = pinch.after_motion(id, x, y, steps);
            let up = pinch.after_up(id);
            &&& down.contacts.dom().contains(id) && down.contacts[id] == (x, y)
            &&& down.control_held == pinch.control_held
            &&& moved.contacts.dom().contains(id) <==> pinch.contacts.dom().contains(id)
            &&& pinch.contacts.dom().contains(id) ==> moved.contacts[id] == (x, y)
            &&& !up.contacts.dom().contains(id)
            &&& down.contacts.dom().contains(other) <==> pinch.contacts.dom().contains(other)
            &&& moved.contacts.dom().contains(other) <==> pinch.contacts.dom().contains(other)
            &&& up.contacts.dom().contains(other) <==> pinch.contacts.dom().contains(other)
            &&& pinch.contacts.dom().contains(other) ==> down.contacts[other]
                == pinch.contacts[other] && moved.contacts[other] == pinch.contacts[other]
                && up.contacts[other] == pinch.contacts[other]
        }),
{
}

/// Lifting a finger lets go of the control key exactly if it is held and fewer
/// than two fingers are left.
pub proof fn law_the_last_finger_but_one_ends_the_zoom(pinch: PinchView, id: u32)
    requires
        pinch.wf(),
    ensures
        ({
            let left = pinch.contacts.dom().remove(id).len();
            let events = pinch.up_events(id);
            &&& pinch.control_held && left < 2 ==> events.len() == 1 && events[0].event_type == 1
                && events[0].code == 29 && events[0].value == 0
            &&& !(pinch.control_held && left < 2) ==> events.len() == 0
            &&& pinch.after_up(id).control_held <==> pinch.control_held && left >= 2
        }),
{
    assert(pinch.contacts.remove(id).dom() =~= pinch.contacts.dom().remove(id));
}

/// Whether `image` is the place on the wire of a coordinate: the last of the
/// 65536 places that does not lie beyond it. What lies outside of the range counts
/// as its nearer end.
pub open spec fn is_place(value: int, range: (i32, i32), image: int) -> bool {
    let width = range.1 - range.0;
    let offset = if value < range.0 {
        0
    } else if value > range.1 {
        width
    } else {
        value - range.0
    };
    image * width <= offset * 65535 < (image + 1) * width
}

pub proof fn law_coordinates_have_their_place(value: int, range: (i32, i32))
    requires
        range.0 < range.1,
        range.1 - range.0 <= i32::MAX,
    ensures
        is_place(value, range, normalized(value, range)),
        0 <= normalized(value, range) <= 65535,
{
    law_normalizing_spans_the_wire(value, range);
    let width = range.1 - range.0;
    let offset = clamped(value, range.0 as int, range.1 as int) - range.0;
    let image = normalized(value, range);
    vstd::arithmetic::div_mod::lemma_fundamental_div_mod(offset * 65535, width);
    assert(image * width == width * image) by (nonlinear_arith);
    assert((image + 1) * width == width * image + width) by (nonlinear_arith);
}

/// A finger that is put down on a surface is handed on as soon as both of its
/// coordinates are known, whichever comes first, and after that each new
/// coordinate moves it. Lifted, it goes up. One that was never handed on is
/// lifted in silence.
pub proof fn law_surface_contacts_are_handed_on(
    pad: TrackpadView,
    id: i32,
    x: i32,
    y: i32,
    x2: i32,
    y2: i32,
    none: i32,
)
    requires
        id >= 0,
        none < 0,
        pad.wf(),
    ensures
        ({
            let begun = pad.after(57, id);
            let shown = begun.after(53, x).after(54, y);
            &&& pad.input(57, id) is None
            &&& begun.input(53, x) is None
            &&& begun.input(54, y) is None
            &&& begun.input(57, none) is None
            &&& begun.after(53, x).input(54, y) matches Some(
                PinchInput::Down { id: named, x: px, y: py },
            ) && named == id && is_place(x as int, pad.x_range, px as int) && is_place(
                y as int,
                pad.y_range,
                py as int,
            )
            &&& begun.after(54, y).input(53, x) == begun.after(53, x).input(54, y)
            &&& shown == begun.after(54, y).after(53, x)
            &&& shown.input(53, x2) matches Some(PinchInput::Motion { id: named, x: px, y: py })
                && named == id && is_place(x2 as int, pad.x_range, px as int) && is_place(
                y as int,
                pad.y_range,
                py as int,
            )
            &&& shown.input(54, y2) matches Some(PinchInput::Motion { id: named, x: px, y: py })
                && named == id && is_place(x as int, pad.x_range, px as int) && is_place(
                y2 as int,
                pad.y_range,
                py as int,
            )
            &&& shown.input(57, none) == Some(PinchInput::Up { id: id as u32 })
            &&& shown.after(57, none).input(53, x2) is None
            &&& shown.after(57, none).input(57, none) is None
        }),
{
    law_coordinates_have_their_place(x as int, pad.x_range);
    law_coordinates_have_their_place(x2 as int, pad.x_range);
    law_coordinates_have_their_place(y as int, pad.y_range);
    law_coordinates_have_their_place(y2 as int, pad.y_range);
    let begun = pad.after(57, id);
    assert(begun.after(53, x).after(54, y).contacts =~= begun.after(54, y).after(53, x).contacts);
}

/// What is done in one slot leaves the fingers of the others as they are, and
/// going from slot to slot changes no finger.
pub proof fn law_slots_are_apart(pad: TrackpadView, slot: i32, code: u16, value: i32, other: u64)
    requires
        slot >= 0,
        other != pad.slot,
    ensures
        pad.after(47, slot).slot == slot,
        pad.after(47, slot).contacts == pad.contacts,
        pad.input(47, slot) is None,
        code != 47 ==> pad.after(code, value).slot == pad.slot,
        pad.after(code, value).contacts.dom().contains(other) <==> pad.contacts.dom().contains(
            other,
        ),
        pad.contacts.dom().contains(other) ==> pad.after(code, value).contacts[other]
            == pad.contacts[other],
        pad.after(code, value).x_range == pad.x_range,
        pad.after(code, value).y_range == pad.y_range,
{
}

/// At first no finger is down and the control key is not held: no movement zooms
/// and no lifted finger ends a zoom.
pub proof fn law_at_first_no_finger_is_down(id: u32, steps: i32)
    ensures
        !PinchView::idle().contacts.contains_key(id),
        !PinchView::idle().control_held,
        PinchView::idle().motion_events(id, steps).len() == 0,
        !PinchView::idle().ends(id),
{
}

} // verus!
