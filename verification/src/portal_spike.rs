//! The consent-driven InputCapture session of the controlling side.
//!
//! The application talks to the desktop portal. This module decides what to
//! ask for next, what a reply means and which barrier to arm.
use vstd::prelude::*;

use crate::portal::{actionable, optional, optional_restore_token, require_success, required, Field, PortalError};
use crate::portal_persistence::{PortalPersistence, RestoreToken};
use crate::text::{push_decimal, same_text};

verus! {

pub const CAP_KEYBOARD: u32 = 1;

pub const CAP_POINTER: u32 = 2;

pub const CAP_TOUCH: u32 = 4;

pub const BARRIER_ID: u32 = 1;

pub type CaptureResult<T> = Result<T, PortalError>;

#[derive(Debug, Clone, Copy, PartialEq, Eq, Structural)]
pub struct Zone {
    pub width: u32,
    pub height: u32,
    pub x: i32,
    pub y: i32,
}

#[derive(Debug, Clone, Copy, PartialEq, Eq, Structural)]
pub struct Barrier {
    pub id: u32,
    pub x1: i32,
    pub y1: i32,
    pub x2: i32,
    pub y2: i32,
}

#[derive(Debug, Clone, Copy, PartialEq, Eq, Structural)]
pub enum CaptureEdge {
    Left,
    Right,
}

impl CaptureEdge {
    pub open spec fn word(self) -> Seq<char> {
        match self {
            CaptureEdge::Left => "left"@,
            CaptureEdge::Right => "right"@,
        }
    }

    pub fn name(self) -> (name: &'static str)
        ensures
            name@ == self.word(),
    {
        match self {
            CaptureEdge::Left => "left",
            CaptureEdge::Right => "right",
        }
    }
}

#[derive(Debug, Clone, Copy, PartialEq, Eq, Structural)]
pub enum CaptureCapabilities {
    PointerOnly,
    KeyboardPointer,
    KeyboardPointerTouch,
}

impl CaptureCapabilities {
    pub open spec fn mask(self) -> u32 {
        match self {
            CaptureCapabilities::PointerOnly => 2,
            CaptureCapabilities::KeyboardPointer => 3,
            CaptureCapabilities::KeyboardPointerTouch => 7,
        }
    }

    pub open spec fn word(self) -> Seq<char> {
        match self {
            CaptureCapabilities::PointerOnly => "pointer"@,
            CaptureCapabilities::KeyboardPointer => "keyboard+pointer"@,
            CaptureCapabilities::KeyboardPointerTouch => "keyboard+pointer+touch"@,
        }
    }

    /// Whether a set of bits holds all that is asked for.
    pub open spec fn within(self, bits: u32) -> bool {
        bits & self.mask() == self.mask()
    }

    pub fn bits(self) -> (bits: u32)
        ensures
            bits == self.mask(),
    {
        match self {
            CaptureCapabilities::PointerOnly => CAP_POINTER,
            CaptureCapabilities::KeyboardPointer => {
                assert(1u32 | 2u32 == 3u32) by (bit_vector);
                CAP_KEYBOARD | CAP_POINTER
            },
            CaptureCapabilities::KeyboardPointerTouch => {
                assert(1u32 | 2u32 | 4u32 == 7u32) by (bit_vector);
                CAP_KEYBOARD | CAP_POINTER | CAP_TOUCH
            },
        }
    }

    pub fn name(self) -> (name: &'static str)
        ensures
            name@ == self.word(),
    {
        match self {
            CaptureCapabilities::PointerOnly => "pointer",
            CaptureCapabilities::KeyboardPointer => "keyboard+pointer",
            CaptureCapabilities::KeyboardPointerTouch => "keyboard+pointer+touch",
        }
    }
}

/// Where an activation found the pointer, by its row.
#[derive(Debug, Clone, PartialEq, Eq)]
pub enum CursorPosition {
    /// It was left out, or a coordinate was not finite.
    Missing,
    /// The row, by its text, does not fit a coordinate.
    OutOfRange { y: String },
    /// The row, rounded to the nearest pixel.
    At { y: i32 },
}

/// A lifecycle notification belonging to one InputCapture session.
#[derive(Debug, Clone, PartialEq, Eq)]
pub enum CaptureSignal {
    Activated { activation_id: u32, barrier_id: Option<u32>, cursor_position: CursorPosition },
    Deactivated { activation_id: Option<u32> },
    Disabled,
    ZonesChanged { zone_set: Option<u32> },
    Other { member: String },
}

/// A signal's options, as far as they could be read.
#[derive(Debug, Clone, PartialEq, Eq)]
pub struct SignalOptions {
    pub activation_id: Option<u32>,
    pub barrier_id: Option<u32>,
    pub zone_set: Option<u32>,
    pub cursor_position: CursorPosition,
}

pub open spec fn is_other(signal: CaptureSignal, member: Seq<char>) -> bool {
    signal matches CaptureSignal::Other { member: text } && text@ == member
}

/// Whether a signal with this name and these options reads as `signal`.
pub open spec fn reads_as(member: Seq<char>, options: SignalOptions, signal: CaptureSignal) -> bool {
    if member == "Activated"@ {
        match options.activation_id {
            Some(activation_id) => signal == (CaptureSignal::Activated {
                activation_id,
                barrier_id: options.barrier_id,
                cursor_position: options.cursor_position,
            }),
            None => is_other(signal, "Activated: missing activation_id"@),
        }
    } else if member == "Deactivated"@ {
        signal == (CaptureSignal::Deactivated { activation_id: options.activation_id })
    } else if member == "Disabled"@ {
        signal == CaptureSignal::Disabled
    } else if member == "ZonesChanged"@ {
        signal == (CaptureSignal::ZonesChanged { zone_set: options.zone_set })
    } else {
        is_other(signal, member)
    }
}

/// What a signal of this session says.
pub fn capture_signal(member: &str, options: SignalOptions) -> (signal: CaptureSignal)
    ensures
        reads_as(member@, options, signal),
{
    if same_text(member, "Activated") {
        return match options.activation_id {
            Some(activation_id) => CaptureSignal::Activated {
                activation_id,
                barrier_id: options.barrier_id,
                cursor_position: options.cursor_position,
            },
            None => CaptureSignal::Other {
                member: "Activated: missing activation_id".to_string(),
            },
        };
    }
    if same_text(member, "Deactivated") {
        return CaptureSignal::Deactivated { activation_id: options.activation_id };
    }
    if same_text(member, "Disabled") {
        return CaptureSignal::Disabled;
    }
    if same_text(member, "ZonesChanged") {
        return CaptureSignal::ZonesChanged { zone_set: options.zone_set };
    }
    CaptureSignal::Other { member: member.to_string() }
}

/// What an observer of the session at `session` makes of a signal on the bus.
/// `payload` is what it carries, the path of the session that it is about and
/// its options, if that could be read at all. Signals about other sessions are
/// left alone.
pub fn observed_signal(
    session: &str,
    member: &str,
    payload: Option<(String, SignalOptions)>,
) -> (observed: Option<CaptureSignal>)
    ensures
        match payload {
            None => observed matches Some(signal) && is_other(
                signal,
                member@ + ": could not decode signal payload"@,
            ),
            Some((about, options)) => if about@ == session@ {
                observed matches Some(signal) && reads_as(member@, options, signal)
            } else {
                observed is None
            },
        },
{
    match payload {
        None => {
            let mut text = String::new();
            text.push_str(member);
            text.push_str(": could not decode signal payload");
            assert(text@ =~= member@ + ": could not decode signal payload"@);
            Some(CaptureSignal::Other { member: text })
        },
        Some((about, options)) => {
            if same_text(about.as_str(), session) {
                Some(capture_signal(member, options))
            } else {
                None
            }
        },
    }
}

pub open spec fn usable(zone: Zone) -> bool {
    zone.width > 0 && zone.height > 0
}

/// Whether the last row of a zone has a coordinate, and why not.
pub open spec fn bottom_fault(
    zone: Zone,
    too_high: Seq<char>,
    overflow: Seq<char>,
) -> Option<Seq<char>> {
    if zone.height - 1 > i32::MAX {
        Some(too_high)
    } else if zone.y + zone.height - 1 > i32::MAX {
        Some(overflow)
    } else {
        None
    }
}

fn bottom_row(zone: Zone, too_high: &str, overflow: &str) -> (result: Result<i32, PortalError>)
    requires
        zone.height > 0,
    ensures
        match bottom_fault(zone, too_high@, overflow@) {
            Some(text) => crate::portal::fails(result, text),
            None => result == Ok::<i32, PortalError>((zone.y + zone.height - 1) as i32),
        },
{
    if zone.height - 1 > 0x7fff_ffff {
        return Err(actionable(too_high));
    }
    let bottom: i64 = zone.y as i64 + zone.height as i64 - 1;
    if bottom > 0x7fff_ffff {
        return Err(actionable(overflow));
    }
    Ok(bottom as i32)
}

/// Whether zone `i` is the one whose left edge is armed: the tallest of those
/// that reach furthest left, and the last of them.
pub open spec fn is_leftmost(zones: Seq<Zone>, i: int) -> bool {
    &&& 0 <= i < zones.len()
    &&& usable(zones[i])
    &&& forall|j: int|
        0 <= j < zones.len() && usable(#[trigger] zones[j]) ==> {
            &&& zones[i].x <= zones[j].x
            &&& zones[j].x == zones[i].x ==> zones[j].height <= zones[i].height
            &&& zones[j].x == zones[i].x && j > i ==> zones[j].height < zones[i].height
        }
}

/// The barrier along the left edge of all zones.
pub fn choose_left_barrier(zones: &[Zone]) -> (result: CaptureResult<Barrier>)
    ensures
        (forall|j: int| 0 <= j < zones@.len() ==> !usable(#[trigger] zones@[j]))
            ==> crate::portal::fails(
            result,
            "portal returned no non-empty zones for a left barrier"@,
        ),
        forall|i: int| #[trigger]
            is_leftmost(zones@, i) ==> match bottom_fault(
                zones@[i],
                "leftmost zone height cannot be represented in portal coordinates"@,
                "leftmost zone coordinates overflow i32"@,
            ) {
                Some(text) => crate::portal::fails(result, text),
                None => result == Ok::<Barrier, PortalError>(
                    Barrier {
                        id: BARRIER_ID,
                        x1: zones@[i].x,
                        y1: zones@[i].y,
                        x2: zones@[i].x,
                        y2: (zones@[i].y + zones@[i].height - 1) as i32,
                    },
                ),
            },
        (exists|j: int| 0 <= j < zones@.len() && usable(#[trigger] zones@[j])) ==> exists|i: int|
            is_leftmost(zones@, i),
{
    let mut best: Option<usize> = None;
    let mut k: usize = 0;
    while k < zones.len()
        invariant
            k <= zones@.len(),
            match best {
                None => forall|j: int| 0 <= j < k ==> !usable(#[trigger] zones@[j]),
                Some(i) => i < k && is_leftmost(zones@.take(k as int), i as int),
            },
        decreases zones.len() - k,
    {
        let zone = zones[k];
        let ghost seen = zones@.take(k as int);
        let ghost next = zones@.take(k + 1);
        if zone.width > 0 && zone.height > 0 {
            let replace = match best {
                None => true,
                Some(i) => zone.x < zones[i].x || (zone.x == zones[i].x && zone.height
                    >= zones[i].height),
            };
            if replace {
                proof {
                    assert forall|j: int| 0 <= j < next.len() && usable(#[trigger] next[j]) implies {
                        &&& zone.x <= next[j].x
                        &&& next[j].x == zone.x ==> next[j].height <= zone.height
                        &&& next[j].x == zone.x && j > k ==> next[j].height < zone.height
                    } by {
                        if j < k {
                            assert(seen[j] == next[j]);
                            assert(zones@[j] == next[j]);
                        }
                    }
                    assert(next[k as int] == zone);
                    assert(is_leftmost(next, k as int));
                }
                best = Some(k);
            } else {
                proof {
                    let i = best->0 as int;
                    assert(seen[i] == next[i]);
                    assert forall|j: int| 0 <= j < next.len() && usable(#[trigger] next[j]) implies {
                        &&& next[i].x <= next[j].x
                        &&& next[j].x == next[i].x ==> next[j].height <= next[i].height
                        &&& next[j].x == next[i].x && j > i ==> next[j].height < next[i].height
                    } by {
                        if j < k {
                            assert(seen[j] == next[j]);
                        }
                    }
                    assert(is_leftmost(next, i));
                }
            }
        } else {
            proof {
                if best is Some {
                    let i = best->0 as int;
                    assert(seen[i] == next[i]);
                    assert forall|j: int| 0 <= j < next.len() && usable(#[trigger] next[j]) implies {
                        &&& next[i].x <= next[j].x
                        &&& next[j].x == next[i].x ==> next[j].height <= next[i].height
                        &&& next[j].x == next[i].x && j > i ==> next[j].height < next[i].height
                    } by {
                        if j < k {
                            assert(seen[j] == next[j]);
                        }
                    }
                    assert(is_leftmost(next, i));
                }
            }
        }
        k = k + 1;
    }
    assert(zones@.take(k as int) =~= zones@);
    match best {
        None => Err(actionable("portal returned no non-empty zones for a left barrier")),
        Some(i) => {
            assert(is_leftmost(zones@, i as int));
            assert forall|other: int| #[trigger] is_leftmost(zones@, other) implies other == i by {
                assert(usable(zones@[other]) && usable(zones@[i as int]));
            }
            let zone = zones[i];
            match bottom_row(
                zone,
                "leftmost zone height cannot be represented in portal coordinates",
                "leftmost zone coordinates overflow i32",
            ) {
                Ok(y2) => Ok(Barrier { id: BARRIER_ID, x1: zone.x, y1: zone.y, x2: zone.x, y2 }),
                Err(error) => Err(error),
            }
        },
    }
}

/// Why the column right of a zone has no coordinate.
pub open spec fn right_fault(zone: Zone) -> Option<Seq<char>> {
    if zone.width > i32::MAX {
        Some("zone width cannot be represented in portal coordinates"@)
    } else if zone.x + zone.width > i32::MAX {
        Some("rightmost zone coordinates overflow i32"@)
    } else {
        None
    }
}

/// Whether zone `i` is the first usable one without a right column.
pub open spec fn is_first_faulty(zones: Seq<Zone>, i: int) -> bool {
    &&& 0 <= i < zones.len()
    &&& usable(zones[i]) && right_fault(zones[i]) is Some
    &&& forall|j: int|
        0 <= j < i && usable(#[trigger] zones[j]) ==> right_fault(zones[j]) is None
}

/// Whether zone `i` is the one whose right edge is armed: the tallest of those
/// that reach furthest right, and the first of them.
pub open spec fn is_rightmost(zones: Seq<Zone>, i: int) -> bool {
    &&& 0 <= i < zones.len()
    &&& usable(zones[i])
    &&& forall|j: int|
        0 <= j < zones.len() && usable(#[trigger] zones[j]) ==> {
            let right = zones[i].x + zones[i].width;
            &&& right_fault(zones[j]) is None
            &&& zones[j].x + zones[j].width <= right
            &&& zones[j].x + zones[j].width == right ==> zones[j].height <= zones[i].height
            &&& zones[j].x + zones[j].width == right && j < i ==> zones[j].height < zones[i].height
        }
}

/// The barrier along the right edge of all zones: the column behind the last.
pub fn choose_right_barrier(zones: &[Zone]) -> (result: CaptureResult<Barrier>)
    ensures
        (forall|j: int| 0 <= j < zones@.len() ==> !usable(#[trigger] zones@[j]))
            ==> crate::portal::fails(
            result,
            "portal returned no non-empty zones for a right barrier"@,
        ),
        forall|i: int| #[trigger]
            is_first_faulty(zones@, i) ==> crate::portal::fails(result, right_fault(zones@[i])->0),
        forall|i: int| #[trigger]
            is_rightmost(zones@, i) ==> match bottom_fault(
                zones@[i],
                "rightmost zone height cannot be represented in portal coordinates"@,
                "rightmost zone coordinates overflow i32"@,
            ) {
                Some(text) => crate::portal::fails(result, text),
                None => result == Ok::<Barrier, PortalError>(
                    Barrier {
                        id: BARRIER_ID,
                        x1: (zones@[i].x + zones@[i].width) as i32,
                        y1: zones@[i].y,
                        x2: (zones@[i].x + zones@[i].width) as i32,
                        y2: (zones@[i].y + zones@[i].height - 1) as i32,
                    },
                ),
            },
        (exists|j: int| 0 <= j < zones@.len() && usable(#[trigger] zones@[j])) ==> (exists|i: int|
            is_rightmost(zones@, i)) || (exists|i: int| is_first_faulty(zones@, i)),
{
    let mut best: Option<(i32, usize)> = None;
    let mut k: usize = 0;
    while k < zones.len()
        invariant
            k <= zones@.len(),
            forall|j: int|
                0 <= j < k && usable(#[trigger] zones@[j]) ==> right_fault(zones@[j]) is None,
            match best {
                None => forall|j: int| 0 <= j < k ==> !usable(#[trigger] zones@[j]),
                Some((right, i)) => i < k && is_rightmost(zones@.take(k as int), i as int) && right
                    == zones@[i as int].x + zones@[i as int].width,
            },
        decreases zones.len() - k,
    {
        let zone = zones[k];
        let ghost seen = zones@.take(k as int);
        let ghost next = zones@.take(k + 1);
        assert(next[k as int] == zone);
        if zone.width > 0 && zone.height > 0 {
            if zone.width > 0x7fff_ffff {
                proof {
                    assert(is_first_faulty(zones@, k as int));
                    lemma_first_faulty(zones@, k as int);
                }
                return Err(actionable("zone width cannot be represented in portal coordinates"));
            }
            let sum: i64 = zone.x as i64 + zone.width as i64;
            if sum > 0x7fff_ffff {
                proof {
                    assert(is_first_faulty(zones@, k as int));
                    lemma_first_faulty(zones@, k as int);
                }
                return Err(actionable("rightmost zone coordinates overflow i32"));
            }
            let right: i32 = sum as i32;
            let replace = match best {
                None => true,
                Some((candidate, i)) => right > candidate || (right == candidate && zone.height
                    > zones[i].height),
            };
            proof {
                if best is Some {
                    let i = (best->0).1 as int;
                    assert(seen[i] == next[i]);
                }
                let chosen = if replace {
                    k as int
                } else {
                    (best->0).1 as int
                };
                assert forall|j: int| 0 <= j < next.len() && usable(#[trigger] next[j]) implies {
                    let edge = next[chosen].x + next[chosen].width;
                    &&& right_fault(next[j]) is None
                    &&& next[j].x + next[j].width <= edge
                    &&& next[j].x + next[j].width == edge ==> next[j].height <= next[chosen].height
                    &&& next[j].x + next[j].width == edge && j < chosen ==> next[j].height
                        < next[chosen].height
                } by {
                    if j < k {
                        assert(seen[j] == next[j]);
                        assert(zones@[j] == next[j]);
                    }
                }
                assert(is_rightmost(next, chosen));
            }
            if replace {
                best = Some((right, k));
            }
        } else {
            proof {
                if best is Some {
                    let i = (best->0).1 as int;
                    assert(seen[i] == next[i]);
                    assert forall|j: int| 0 <= j < next.len() && usable(#[trigger] next[j]) implies {
                        let edge = next[i].x + next[i].width;
                        &&& right_fault(next[j]) is None
                        &&& next[j].x + next[j].width <= edge
                        &&& next[j].x + next[j].width == edge ==> next[j].height <= next[i].height
                        &&& next[j].x + next[j].width == edge && j < i ==> next[j].height
                            < next[i].height
                    } by {
                        if j < k {
                            assert(seen[j] == next[j]);
                        }
                    }
                    assert(is_rightmost(next, i));
                }
            }
        }
        k = k + 1;
    }
    assert(zones@.take(k as int) =~= zones@);
    assert forall|i: int| !#[trigger] is_first_faulty(zones@, i) by {
        if is_first_faulty(zones@, i) {
            assert(usable(zones@[i]));
        }
    }
    match best {
        None => Err(actionable("portal returned no non-empty zones for a right barrier")),
        Some((right, i)) => {
            assert(is_rightmost(zones@, i as int));
            assert forall|other: int| #[trigger] is_rightmost(zones@, other) implies other == i by {
                assert(usable(zones@[other]) && usable(zones@[i as int]));
            }
            let zone = zones[i];
            match bottom_row(
                zone,
                "rightmost zone height cannot be represented in portal coordinates",
                "rightmost zone coordinates overflow i32",
            ) {
                Ok(y2) => Ok(Barrier { id: BARRIER_ID, x1: right, y1: zone.y, x2: right, y2 }),
                Err(error) => Err(error),
            }
        },
    }
}

/// A faulty zone is the only first one, and no zone is rightmost beside it.
proof fn lemma_first_faulty(zones: Seq<Zone>, i: int)
    requires
        is_first_faulty(zones, i),
    ensures
        forall|other: int| #[trigger] is_first_faulty(zones, other) ==> other == i,
        forall|other: int| !#[trigger] is_rightmost(zones, other),
{
    assert forall|other: int| #[trigger] is_first_faulty(zones, other) implies other == i by {
        assert(usable(zones[other]) && usable(zones[i]));
    }
    assert forall|other: int| !#[trigger] is_rightmost(zones, other) by {
        if is_rightmost(zones, other) {
            assert(usable(zones[i]));
        }
    }
}

pub fn choose_barrier(edge: CaptureEdge, zones: &[Zone]) -> (result: CaptureResult<Barrier>)
    ensures
        barrier_for(edge, zones@, result),
{
    match edge {
        CaptureEdge::Left => choose_left_barrier(zones),
        CaptureEdge::Right => choose_right_barrier(zones),
    }
}

/// Whether a result is what choosing a barrier for an edge must give.
pub open spec fn barrier_for(
    edge: CaptureEdge,
    zones: Seq<Zone>,
    result: CaptureResult<Barrier>,
) -> bool {
    if forall|j: int| 0 <= j < zones.len() ==> !usable(#[trigger] zones[j]) {
        crate::portal::fails(
            result,
            match edge {
                CaptureEdge::Left => "portal returned no non-empty zones for a left barrier"@,
                CaptureEdge::Right => "portal returned no non-empty zones for a right barrier"@,
            },
        )
    } else {
        match edge {
            CaptureEdge::Left => exists|i: int| #[trigger]
                is_leftmost(zones, i) && match bottom_fault(
                    zones[i],
                    "leftmost zone height cannot be represented in portal coordinates"@,
                    "leftmost zone coordinates overflow i32"@,
                ) {
                    Some(text) => crate::portal::fails(result, text),
                    None => result == Ok::<Barrier, PortalError>(
                        Barrier {
                            id: BARRIER_ID,
                            x1: zones[i].x,
                            y1: zones[i].y,
                            x2: zones[i].x,
                            y2: (zones[i].y + zones[i].height - 1) as i32,
                        },
                    ),
                },
            CaptureEdge::Right => (exists|i: int| #[trigger]
                is_first_faulty(zones, i) && crate::portal::fails(
                    result,
                    right_fault(zones[i])->0,
                )) || (exists|i: int| #[trigger]
                is_rightmost(zones, i) && match bottom_fault(
                    zones[i],
                    "rightmost zone height cannot be represented in portal coordinates"@,
                    "rightmost zone coordinates overflow i32"@,
                ) {
                    Some(text) => crate::portal::fails(result, text),
                    None => result == Ok::<Barrier, PortalError>(
                        Barrier {
                            id: BARRIER_ID,
                            x1: (zones[i].x + zones[i].width) as i32,
                            y1: zones[i].y,
                            x2: (zones[i].x + zones[i].width) as i32,
                            y2: (zones[i].y + zones[i].height - 1) as i32,
                        },
                    ),
                }),
        }
    }
}

/// A chosen barrier is vertical, covers all rows of a usable zone, and no
/// usable zone lies beyond it.
pub proof fn law_barrier_bounds_every_zone(
    edge: CaptureEdge,
    zones: Seq<Zone>,
    barrier: Barrier,
    j: int,
)
    requires
        barrier_for(edge, zones, Ok(barrier)),
        0 <= j < zones.len(),
        usable(zones[j]),
    ensures
        barrier.x1 == barrier.x2,
        barrier.y1 <= barrier.y2,
        edge == CaptureEdge::Left ==> barrier.x1 <= zones[j].x,
        edge == CaptureEdge::Right ==> barrier.x1 >= zones[j].x + zones[j].width,
        exists|i: int|
            #![trigger zones[i]]
            0 <= i < zones.len() && usable(zones[i]) && barrier.y1 == zones[i].y && barrier.y2
                == zones[i].y + zones[i].height - 1,
{
    match edge {
        CaptureEdge::Left => {
            let i = choose|i: int| #[trigger]
                is_leftmost(zones, i) && bottom_fault(
                    zones[i],
                    "leftmost zone height cannot be represented in portal coordinates"@,
                    "leftmost zone coordinates overflow i32"@,
                ) is None;
            assert(usable(zones[i]));
        },
        CaptureEdge::Right => {
            let i = choose|i: int| #[trigger]
                is_rightmost(zones, i) && bottom_fault(
                    zones[i],
                    "rightmost zone height cannot be represented in portal coordinates"@,
                    "rightmost zone coordinates overflow i32"@,
                ) is None;
            assert(usable(zones[i]));
        },
    }
}

/// The entries of a reply that this module reads.
#[derive(Debug, Clone, PartialEq, Eq)]
pub struct CaptureResults {
    pub session_handle: Field<String>,
    pub capabilities: Field<u32>,
    pub zones: Field<Vec<Zone>>,
    pub zone_set: Field<u32>,
    pub failed_barriers: Field<Vec<u32>>,
    pub restore_token: Field<String>,
}

/// A reply to a request that the person at the desktop may decide on.
#[derive(Debug, Clone, PartialEq, Eq)]
pub struct PortalResponse {
    pub code: u32,
    pub results: CaptureResults,
}

/// The zones in a reply.
pub fn required_zones(results: CaptureResults) -> (result: CaptureResult<Vec<Zone>>)
    ensures
        match results.zones {
            Field::Missing => crate::portal::fails(
                result,
                crate::portal::missing_text("zones"@),
            ),
            Field::WrongType(why) => crate::portal::fails(
                result,
                crate::portal::wrong_type_text("zones"@, why@),
            ),
            Field::Value(zones) => result == Ok::<Vec<Zone>, PortalError>(zones),
        },
{
    required(results.zones, "zones")
}

/// What the session is waiting for.
#[derive(Debug, Clone, Copy, PartialEq, Eq, Structural)]
pub enum SetupStage {
    Session,
    Properties,
    Creation,
    Consent,
    Zones,
    Barriers,
    Connection,
    Enabling,
}

impl SetupStage {
    pub open spec fn rank(self) -> int {
        match self {
            SetupStage::Session => 0,
            SetupStage::Properties => 1,
            SetupStage::Creation => 2,
            SetupStage::Consent => 3,
            SetupStage::Zones => 4,
            SetupStage::Barriers => 5,
            SetupStage::Connection => 6,
            SetupStage::Enabling => 7,
        }
    }
}

/// The options of the `Start` call.
#[derive(Debug, Clone, PartialEq, Eq)]
pub struct StartOptions {
    pub handle_token: String,
    pub capabilities: u32,
    pub persist_mode: Option<u32>,
    pub restore_token: Option<String>,
}

/// The options of the `SetPointerBarriers` call.
#[derive(Debug, Clone, PartialEq, Eq)]
pub struct BarrierOptions {
    pub handle_token: String,
    pub barrier: Barrier,
    pub zone_set: u32,
}

/// What a [`CaptureSetup`] knows.
pub struct CaptureView {
    pub edge: CaptureEdge,
    pub capabilities: CaptureCapabilities,
    pub persistence: crate::portal_persistence::PersistenceView,
    pub stage: SetupStage,
    /// Capabilities that the person at the desktop agreed to.
    pub granted: u32,
    /// Replacement for the single-use token.
    pub token: Option<Seq<char>>,
    pub barrier: Option<Barrier>,
}

impl CaptureView {
    /// Nothing is asked for behind a missing consent, and nothing is armed
    /// without a barrier that was accepted.
    pub open spec fn wf(self) -> bool {
        &&& self.stage.rank() > SetupStage::Consent.rank() ==> self.capabilities.within(
            self.granted,
        )
        &&& self.stage.rank() > SetupStage::Zones.rank() ==> self.barrier is Some
        &&& self.token is Some ==> self.persistence.enabled
    }

    pub open spec fn at(self, stage: SetupStage) -> CaptureView {
        CaptureView { stage, ..self }
    }
}

pub open spec fn support_text(
    capabilities: CaptureCapabilities,
    version: u32,
    supported: u32,
) -> Seq<char> {
    "InputCapture v2 with "@ + capabilities.word() + " is required; found version="@
        + crate::text::decimal(version as nat) + ", capabilities="@ + crate::text::decimal(
        supported as nat,
    )
}

pub open spec fn consent_text(capabilities: CaptureCapabilities, granted: u32) -> Seq<char> {
    "portal consent did not grant "@ + capabilities.word() + "; granted capabilities="@
        + crate::text::decimal(granted as nat)
}

pub open spec fn denied_text(edge: CaptureEdge) -> Seq<char> {
    "KWin denied the computed "@ + edge.word()
        + "-edge barrier; inspect the reported zones and desktop topology"@
}

pub open spec fn no_wayland_text() -> Seq<char> {
    "this process is not in a Wayland session; run the command from a terminal on the graphical host"@
}

/// Why a reply to `Start` ends the session.
pub open spec fn start_fault(setup: CaptureView, response: PortalResponse) -> Option<Seq<char>> {
    if response.code != 0 {
        Some(crate::portal::response_text("Start"@, response.code))
    } else {
        match response.results.capabilities {
            Field::WrongType(why) => Some(
                crate::portal::wrong_type_text("capabilities"@, why@),
            ),
            _ => if !setup.capabilities.within(granted_bits(response)) {
                Some(consent_text(setup.capabilities, granted_bits(response)))
            } else if !setup.persistence.enabled {
                None
            } else {
                match response.results.restore_token {
                    Field::Missing => None,
                    Field::WrongType(why) => Some(
                        crate::portal::wrong_type_text("restore_token"@, why@),
                    ),
                    Field::Value(value) => match crate::portal_persistence::token_fault(value@) {
                        Some(fault) => Some(crate::portal::persistence_text(fault)),
                        None => None,
                    },
                }
            },
        }
    }
}

/// The capabilities that a reply grants.
pub open spec fn granted_bits(response: PortalResponse) -> u32 {
    match response.results.capabilities {
        Field::Value(bits) => bits,
        _ => 0,
    }
}

/// The replacement token in a reply.
pub open spec fn replacement(setup: CaptureView, response: PortalResponse) -> Option<Seq<char>> {
    match response.results.restore_token {
        Field::Value(value) => if setup.persistence.enabled {
            Some(value@)
        } else {
            None
        },
        _ => None,
    }
}

fn has_id(ids: &Vec<u32>, id: u32) -> (found: bool)
    ensures
        found == ids@.contains(id),
{
    let mut i: usize = 0;
    while i < ids.len()
        invariant
            i <= ids.len(),
            forall|j: int| 0 <= j < i ==> ids@[j] != id,
        decreases ids.len() - i,
    {
        if ids[i] == id {
            return true;
        }
        i = i + 1;
    }
    false
}

/// A session on its way to an armed barrier. Each method takes the reply to
/// the call that the stage before it led to.
pub struct CaptureSetup {
    edge: CaptureEdge,
    capabilities: CaptureCapabilities,
    persistence: PortalPersistence,
    stage: SetupStage,
    granted: u32,
    restore_token: Option<RestoreToken>,
    barrier: Option<Barrier>,
}

impl View for CaptureSetup {
    type V = CaptureView;

    closed spec fn view(&self) -> CaptureView {
        CaptureView {
            edge: self.edge,
            capabilities: self.capabilities,
            persistence: self.persistence@,
            stage: self.stage,
            granted: self.granted,
            token: match self.restore_token {
                Some(token) => Some(token@),
                None => None,
            },
            barrier: self.barrier,
        }
    }
}

impl CaptureSetup {
    pub fn begin(
        edge: CaptureEdge,
        capabilities: CaptureCapabilities,
        persistence: PortalPersistence,
    ) -> (setup: CaptureSetup)
        ensures
            setup@ == fresh_setup(edge, capabilities, persistence@),
            setup@.wf(),
    {
        CaptureSetup {
            edge,
            capabilities,
            persistence,
            stage: SetupStage::Session,
            granted: 0,
            restore_token: None,
            barrier: None,
        }
    }

    pub fn stage(&self) -> (stage: SetupStage)
        ensures
            stage == self@.stage,
    {
        self.stage
    }

    /// Only a Wayland session has the portal. The portal's properties are read
    /// next.
    pub fn session_type(&mut self, session_type: Option<String>) -> (result: CaptureResult<()>)
        requires
            old(self)@.wf(),
            old(self)@.stage == SetupStage::Session,
        ensures
            final(self)@.wf(),
            if session_type matches Some(name) && name@ == "wayland"@ {
                result is Ok && final(self)@ == old(self)@.at(SetupStage::Properties)
            } else {
                crate::portal::fails(result, no_wayland_text()) && final(self)@ == old(self)@
            },
    {
        if let Some(name) = session_type {
            if same_text(name.as_str(), "wayland") {
                self.stage = SetupStage::Properties;
                return Ok(());
            }
        }
        Err(
            actionable(
                "this process is not in a Wayland session; run the command from a terminal on the graphical host",
            ),
        )
    }

    /// The portal must be recent and support what is asked for. The session is
    /// created next.
    pub fn properties(&mut self, version: u32, supported: u32) -> (result: CaptureResult<()>)
        requires
            old(self)@.wf(),
            old(self)@.stage == SetupStage::Properties,
        ensures
            final(self)@.wf(),
            if version >= 2 && old(self)@.capabilities.within(supported) {
                result is Ok && final(self)@ == old(self)@.at(SetupStage::Creation)
            } else {
                crate::portal::fails(
                    result,
                    support_text(old(self)@.capabilities, version, supported),
                ) && final(self)@ == old(self)@
            },
    {
        let bits = self.capabilities.bits();
        if version < 2 || supported & bits != bits {
            let mut message = String::new();
            message.push_str("InputCapture v2 with ");
            message.push_str(self.capabilities.name());
            message.push_str(" is required; found version=");
            push_decimal(&mut message, version as u64);
            message.push_str(", capabilities=");
            push_decimal(&mut message, supported as u64);
            assert(message@ =~= support_text(self.capabilities, version, supported));
            return Err(PortalError { message });
        }
        self.stage = SetupStage::Creation;
        Ok(())
    }

    /// The session exists; the person at the desktop is asked next. Gives the
    /// session's path and the options to ask with. Nothing is said about
    /// persistence unless it was opted into.
    pub fn created(&mut self, results: CaptureResults, handle_token: String) -> (result:
        CaptureResult<(String, StartOptions)>)
        requires
            old(self)@.wf(),
            old(self)@.stage == SetupStage::Creation,
        ensures
            final(self)@.wf(),
            match results.session_handle {
                Field::Missing => crate::portal::fails(
                    result,
                    crate::portal::missing_text("session_handle"@),
                ) && final(self)@ == old(self)@,
                Field::WrongType(why) => crate::portal::fails(
                    result,
                    crate::portal::wrong_type_text("session_handle"@, why@),
                ) && final(self)@ == old(self)@,
                Field::Value(path) => {
                    &&& final(self)@ == old(self)@.at(SetupStage::Consent)
                    &&& result matches Ok((session, options)) && session@ == path@
                        && options.handle_token@ == handle_token@ && options.capabilities
                        == old(self)@.capabilities.mask() && options.persist_mode == (if old(
                        self,
                    )@.persistence.enabled {
                        Some(2u32)
                    } else {
                        None
                    }) && match options.restore_token {
                        Some(token) => old(self)@.persistence.enabled && old(
                            self,
                        )@.persistence.token == Some(token@),
                        None => !old(self)@.persistence.enabled || old(
                            self,
                        )@.persistence.token is None,
                    }
                },
            },
    {
        let session = match required(results.session_handle, "session_handle") {
            Ok(session) => session,
            Err(error) => {
                return Err(error);
            },
        };
        let mut persist_mode: Option<u32> = None;
        let mut restore_token: Option<String> = None;
        if self.persistence.is_enabled() {
            persist_mode = Some(self.persistence.persist_mode());
            if let Some(token) = self.persistence.restore_token() {
                restore_token = Some(token.expose_secret().to_string());
            }
        }
        self.stage = SetupStage::Consent;
        let options = StartOptions {
            handle_token,
            capabilities: self.capabilities.bits(),
            persist_mode,
            restore_token,
        };
        Ok((session, options))
    }

    /// The person at the desktop has decided. All that was asked for must be
    /// granted. The zones are read next.
    pub fn started(&mut self, response: PortalResponse) -> (result: CaptureResult<()>)
        requires
            old(self)@.wf(),
            old(self)@.stage == SetupStage::Consent,
        ensures
            final(self)@.wf(),
            match start_fault(old(self)@, response) {
                Some(text) => crate::portal::fails(result, text),
                None => result is Ok && final(self)@ == (CaptureView {
                    stage: SetupStage::Zones,
                    granted: granted_bits(response),
                    token: replacement(old(self)@, response),
                    ..old(self)@
                }),
            },
            result is Err ==> final(self)@ == old(self)@,
    {
        if let Err(error) = require_success("Start", response.code) {
            return Err(error);
        }
        let granted: u32 = match optional(response.results.capabilities, "capabilities") {
            Ok(Some(bits)) => bits,
            Ok(None) => 0,
            Err(error) => {
                return Err(error);
            },
        };
        let bits = self.capabilities.bits();
        if granted & bits != bits {
            let mut message = String::new();
            message.push_str("portal consent did not grant ");
            message.push_str(self.capabilities.name());
            message.push_str("; granted capabilities=");
            push_decimal(&mut message, granted as u64);
            assert(message@ =~= consent_text(self.capabilities, granted));
            return Err(PortalError { message });
        }
        let mut restore_token: Option<RestoreToken> = None;
        if self.persistence.is_enabled() {
            restore_token =
            match optional_restore_token(response.results.restore_token) {
                Ok(token) => token,
                Err(error) => {
                    return Err(error);
                },
            };
        }
        self.granted = granted;
        self.restore_token = restore_token;
        self.stage = SetupStage::Zones;
        Ok(())
    }

    /// The zones are known; a barrier along the edge is armed next.
    pub fn zones(&mut self, response: PortalResponse, handle_token: String) -> (result:
        CaptureResult<BarrierOptions>)
        requires
            old(self)@.wf(),
            old(self)@.stage == SetupStage::Zones,
        ensures
            final(self)@.wf(),
            if response.code != 0 {
                crate::portal::fails(
                    result,
                    crate::portal::response_text("GetZones"@, response.code),
                )
            } else {
                match (response.results.zones, response.results.zone_set) {
                    (Field::Missing, _) => crate::portal::fails(
                        result,
                        crate::portal::missing_text("zones"@),
                    ),
                    (Field::WrongType(why), _) => crate::portal::fails(
                        result,
                        crate::portal::wrong_type_text("zones"@, why@),
                    ),
                    (_, Field::Missing) => crate::portal::fails(
                        result,
                        crate::portal::missing_text("zone_set"@),
                    ),
                    (_, Field::WrongType(why)) => crate::portal::fails(
                        result,
                        crate::portal::wrong_type_text("zone_set"@, why@),
                    ),
                    (Field::Value(zones), Field::Value(zone_set)) => match result {
                        Ok(options) => {
                            &&& barrier_for(old(self)@.edge, zones@, Ok(options.barrier))
                            &&& options.zone_set == zone_set
                            &&& options.handle_token@ == handle_token@
                            &&& final(self)@ == (CaptureView {
                                stage: SetupStage::Barriers,
                                barrier: Some(options.barrier),
                                ..old(self)@
                            })
                        },
                        Err(error) => barrier_for(old(self)@.edge, zones@, Err(error)),
                    },
                }
            },
            result is Err ==> final(self)@ == old(self)@,
    {
        if let Err(error) = require_success("GetZones", response.code) {
            return Err(error);
        }
        let zones = match required(response.results.zones, "zones") {
            Ok(zones) => zones,
            Err(error) => {
                return Err(error);
            },
        };
        let zone_set: u32 = match required(response.results.zone_set, "zone_set") {
            Ok(zone_set) => zone_set,
            Err(error) => {
                return Err(error);
            },
        };
        match choose_barrier(self.edge, zones.as_slice()) {
            Ok(barrier) => {
                self.barrier = Some(barrier);
                self.stage = SetupStage::Barriers;
                Ok(BarrierOptions { handle_token, barrier, zone_set })
            },
            Err(error) => Err(error),
        }
    }

    /// The portal has taken the barrier, unless it lists it as failed. The
    /// event connection is opened next; the portal wants that before it
    /// enables capture.
    pub fn barriers_set(&mut self, response: PortalResponse) -> (result: CaptureResult<()>)
        requires
            old(self)@.wf(),
            old(self)@.stage == SetupStage::Barriers,
        ensures
            final(self)@.wf(),
            if response.code != 0 {
                crate::portal::fails(
                    result,
                    crate::portal::response_text("SetPointerBarriers"@, response.code),
                )
            } else {
                match response.results.failed_barriers {
                    Field::WrongType(why) => crate::portal::fails(
                        result,
                        crate::portal::wrong_type_text("failed_barriers"@, why@),
                    ),
                    Field::Value(failed) if failed@.contains((old(self)@.barrier->0).id) =>
                    crate::portal::fails(result, denied_text(old(self)@.edge)),
                    _ => result is Ok && final(self)@ == old(self)@.at(SetupStage::Connection),
                }
            },
            result is Err ==> final(self)@ == old(self)@,
    {
        if let Err(error) = require_success("SetPointerBarriers", response.code) {
            return Err(error);
        }
        let failed = match optional(response.results.failed_barriers, "failed_barriers") {
            Ok(failed) => failed,
            Err(error) => {
                return Err(error);
            },
        };
        if let (Some(failed), Some(barrier)) = (failed, self.barrier) {
            if has_id(&failed, barrier.id) {
                let mut message = String::new();
                message.push_str("KWin denied the computed ");
                message.push_str(self.edge.name());
                message.push_str(
                    "-edge barrier; inspect the reported zones and desktop topology",
                );
                assert(message@ =~= denied_text(self.edge));
                return Err(PortalError { message });
            }
        }
        self.stage = SetupStage::Connection;
        Ok(())
    }

    /// The event connection has completed its opening exchange; capture is
    /// enabled next.
    pub fn connected(&mut self)
        requires
            old(self)@.wf(),
            old(self)@.stage == SetupStage::Connection,
        ensures
            final(self)@.wf(),
            final(self)@ == old(self)@.at(SetupStage::Enabling),
    {
        self.stage = SetupStage::Enabling;
    }

    /// Capture is enabled: the session is armed.
    pub fn enabled(self) -> (session: InputCaptureSession)
        requires
            self@.wf(),
            self@.stage == SetupStage::Enabling,
        ensures
            self@.capabilities.within(self@.granted),
            self@.barrier is Some,
            session@ == (SessionView {
                edge: self@.edge,
                capabilities: self@.capabilities,
                token: self@.token,
                enabled: true,
                closed: false,
            }),
    {
        InputCaptureSession {
            enabled: true,
            closed: false,
            edge: self.edge,
            capabilities: self.capabilities,
            restore_token: self.restore_token,
        }
    }
}

/// What is known of an armed session.
pub struct SessionView {
    pub edge: CaptureEdge,
    pub capabilities: CaptureCapabilities,
    pub token: Option<Seq<char>>,
    pub enabled: bool,
    pub closed: bool,
}

/// A consented, enabled edge capture session, without its connections.
pub struct InputCaptureSession {
    enabled: bool,
    closed: bool,
    edge: CaptureEdge,
    capabilities: CaptureCapabilities,
    restore_token: Option<RestoreToken>,
}

impl View for InputCaptureSession {
    type V = SessionView;

    closed spec fn view(&self) -> SessionView {
        SessionView {
            edge: self.edge,
            capabilities: self.capabilities,
            token: match self.restore_token {
                Some(token) => Some(token@),
                None => None,
            },
            enabled: self.enabled,
            closed: self.closed,
        }
    }
}

pub open spec fn fresh_setup(
    edge: CaptureEdge,
    capabilities: CaptureCapabilities,
    persistence: crate::portal_persistence::PersistenceView,
) -> CaptureView {
    CaptureView {
        edge,
        capabilities,
        persistence,
        stage: SetupStage::Session,
        granted: 0,
        token: None,
        barrier: None,
    }
}

/// Settings without persistence.
pub open spec fn no_persistence() -> crate::portal_persistence::PersistenceView {
    crate::portal_persistence::PersistenceView { enabled: false, token: None }
}

impl InputCaptureSession {
    /// Keyboard and pointer capture at the left edge.
    pub fn start_left() -> (setup: CaptureSetup)
        ensures
            setup@ == fresh_setup(
                CaptureEdge::Left,
                CaptureCapabilities::KeyboardPointer,
                no_persistence(),
            ),
            setup@.wf(),
    {
        Self::start(CaptureEdge::Left, CaptureCapabilities::KeyboardPointer)
    }

    pub fn start_left_with_persistence(persistence: PortalPersistence) -> (setup: CaptureSetup)
        ensures
            setup@ == fresh_setup(
                CaptureEdge::Left,
                CaptureCapabilities::KeyboardPointer,
                persistence@,
            ),
            setup@.wf(),
    {
        Self::start_with_persistence(
            CaptureEdge::Left,
            CaptureCapabilities::KeyboardPointer,
            persistence,
        )
    }

    /// Pointer-only capture at the right edge.
    ///
    /// This is intended to coexist with an injection session on a controlled
    /// peer so its right edge can trigger the return handoff.
    pub fn start_right() -> (setup: CaptureSetup)
        ensures
            setup@ == fresh_setup(
                CaptureEdge::Right,
                CaptureCapabilities::PointerOnly,
                no_persistence(),
            ),
            setup@.wf(),
    {
        Self::start_right_pointer()
    }

    /// Explicitly named alias for the pointer-only right-edge profile.
    pub fn start_right_pointer() -> (setup: CaptureSetup)
        ensures
            setup@ == fresh_setup(
                CaptureEdge::Right,
                CaptureCapabilities::PointerOnly,
                no_persistence(),
            ),
            setup@.wf(),
    {
        Self::start(CaptureEdge::Right, CaptureCapabilities::PointerOnly)
    }

    pub fn start_right_with_persistence(persistence: PortalPersistence) -> (setup: CaptureSetup)
        ensures
            setup@ == fresh_setup(
                CaptureEdge::Right,
                CaptureCapabilities::PointerOnly,
                persistence@,
            ),
            setup@.wf(),
    {
        Self::start_with_persistence(
            CaptureEdge::Right,
            CaptureCapabilities::PointerOnly,
            persistence,
        )
    }

    /// An explicit combination of edge and capabilities.
    pub fn start(edge: CaptureEdge, capabilities: CaptureCapabilities) -> (setup: CaptureSetup)
        ensures
            setup@ == fresh_setup(edge, capabilities, no_persistence()),
            setup@.wf(),
    {
        Self::start_with_persistence(edge, capabilities, PortalPersistence::disabled())
    }

    pub fn start_with_persistence(
        edge: CaptureEdge,
        capabilities: CaptureCapabilities,
        persistence: PortalPersistence,
    ) -> (setup: CaptureSetup)
        ensures
            setup@ == fresh_setup(edge, capabilities, persistence@),
            setup@.wf(),
    {
        CaptureSetup::begin(edge, capabilities, persistence)
    }

    pub fn edge(&self) -> (edge: CaptureEdge)
        ensures
            edge == self@.edge,
    {
        self.edge
    }

    pub fn capabilities(&self) -> (capabilities: CaptureCapabilities)
        ensures
            capabilities == self@.capabilities,
    {
        self.capabilities
    }

    /// Replacement for the supplied single-use token, if persistence was
    /// granted.
    pub fn restore_token(&self) -> (token: Option<&RestoreToken>)
        ensures
            match token {
                Some(token) => self@.token == Some(token@),
                None => self@.token is None,
            },
    {
        self.restore_token.as_ref()
    }

    /// Hands the token over; there is none afterwards.
    pub fn take_restore_token(&mut self) -> (token: Option<RestoreToken>)
        ensures
            match token {
                Some(token) => old(self)@.token == Some(token@),
                None => old(self)@.token is None,
            },
            final(self)@ == (SessionView { token: None, ..old(self)@ }),
    {
        self.restore_token.take()
    }

    /// Whether the portal has to be told to disable capture.
    pub fn disable(&self) -> (call: bool)
        ensures
            call == self@.enabled,
    {
        self.enabled
    }

    /// Whether the portal has to be told to enable capture.
    pub fn enable(&self) -> (call: bool)
        ensures
            call == !self@.enabled,
    {
        !self.enabled
    }

    /// Notes that the portal has done what it was told.
    pub fn set_enabled(&mut self, enabled: bool)
        ensures
            final(self)@ == (SessionView { enabled, ..old(self)@ }),
    {
        self.enabled = enabled;
    }

    /// Starts closing. True if the portal session has to be closed, which is
    /// so until that has succeeded once.
    pub fn close(&mut self) -> (call: bool)
        ensures
            call == !old(self)@.closed,
            final(self)@ == (SessionView { enabled: false, ..old(self)@ }),
    {
        self.enabled = false;
        !self.closed
    }

    /// Notes that the portal session was closed.
    pub fn closed(&mut self)
        ensures
            final(self)@ == (SessionView { closed: true, ..old(self)@ }),
    {
        self.closed = true;
    }
}

/// What is asked for: the pointer is bit 2, the keyboard bit 1 and the touch
/// screen bit 4. It is granted exactly if all bits that are asked for are set.
pub proof fn law_all_that_is_asked_for(bits: u32)
    ensures
        CaptureCapabilities::PointerOnly.within(bits) <==> bits / 2 % 2 == 1,
        CaptureCapabilities::KeyboardPointer.within(bits) <==> bits % 4 == 3,
        CaptureCapabilities::KeyboardPointerTouch.within(bits) <==> bits % 8 == 7,
        CaptureCapabilities::PointerOnly.mask() == 2,
        CaptureCapabilities::KeyboardPointer.mask() == 3,
        CaptureCapabilities::KeyboardPointerTouch.mask() == 7,
        CaptureCapabilities::PointerOnly.word() == "pointer"@,
        CaptureCapabilities::KeyboardPointer.word() == "keyboard+pointer"@,
        CaptureCapabilities::KeyboardPointerTouch.word() == "keyboard+pointer+touch"@,
        CaptureEdge::Left.word() == "left"@,
        CaptureEdge::Right.word() == "right"@,
{
    assert((bits & 2 == 2) == (bits / 2 % 2 == 1) && (bits & 3 == 3) == (bits % 4 == 3) && (bits & 7
        == 7) == (bits % 8 == 7)) by (bit_vector);
}

/// What a signal says: an activation its number, its barrier and where the
/// pointer was, a deactivation its number, a change of zones their set.
pub proof fn law_signals_say_what_they_carry(options: SignalOptions, signal: CaptureSignal)
    ensures
        reads_as("Activated"@, options, signal) && options.activation_id is Some ==> signal == (
        CaptureSignal::Activated {
            activation_id: options.activation_id->0,
            barrier_id: options.barrier_id,
            cursor_position: options.cursor_position,
        }),
        reads_as("Activated"@, options, signal) && options.activation_id is None ==> (signal
            matches CaptureSignal::Other { member } && member@
            == "Activated: missing activation_id"@),
        reads_as("Deactivated"@, options, signal) ==> signal == (CaptureSignal::Deactivated {
            activation_id: options.activation_id,
        }),
        reads_as("Disabled"@, options, signal) ==> signal == CaptureSignal::Disabled,
        reads_as("ZonesChanged"@, options, signal) ==> signal == (CaptureSignal::ZonesChanged {
            zone_set: options.zone_set,
        }),
{
    reveal_strlit("Activated");
    reveal_strlit("Deactivated");
    reveal_strlit("Disabled");
    reveal_strlit("ZonesChanged");
    assert("Activated"@.len() == 9 && "Deactivated"@.len() == 11 && "Disabled"@.len() == 8
        && "ZonesChanged"@.len() == 12);
}

/// A signal with another name is kept by its name.
pub proof fn law_other_signals_are_named(
    member: Seq<char>,
    options: SignalOptions,
    signal: CaptureSignal,
)
    requires
        member != "Activated"@,
        member != "Deactivated"@,
        member != "Disabled"@,
        member != "ZonesChanged"@,
        reads_as(member, options, signal),
    ensures
        signal matches CaptureSignal::Other { member: name } && name@ == member,
{
}

/// Whether a zone has any pixels.
pub open spec fn has_pixels(zone: Zone) -> bool {
    zone.width >= 1 && zone.height >= 1
}

/// The left barrier stands at the left end of all zones that have pixels, along
/// the rows of the tallest zone there. It is there whenever the rows of all zones
/// have coordinates.
pub proof fn law_the_left_barrier(zones: Seq<Zone>, i: int, result: CaptureResult<Barrier>)
    requires
        barrier_for(CaptureEdge::Left, zones, result),
        0 <= i < zones.len(),
        has_pixels(zones[i]),
        forall|j: int|
            0 <= j < zones.len() && has_pixels(#[trigger] zones[j]) ==> zones[i].x <= zones[j].x
                && (zones[j].x == zones[i].x ==> zones[j].height <= zones[i].height)
                && zones[j].y + zones[j].height - 1 <= i32::MAX && zones[j].height <= i32::MAX,
    ensures
        result matches Ok(barrier) && barrier.x1 == zones[i].x && barrier.x2 == zones[i].x
            && barrier.y2 - barrier.y1 + 1 == zones[i].height && exists|k: int|
            0 <= k < zones.len() && has_pixels(#[trigger] zones[k]) && zones[k].x == zones[i].x
                && zones[k].y == barrier.y1 && zones[k].height == zones[i].height,
{
    assert(usable(zones[i]));
    let k = choose|k: int| #[trigger]
        is_leftmost(zones, k) && match bottom_fault(
            zones[k],
            "leftmost zone height cannot be represented in portal coordinates"@,
            "leftmost zone coordinates overflow i32"@,
        ) {
            Some(text) => crate::portal::fails(result, text),
            None => result == Ok::<Barrier, PortalError>(
                Barrier {
                    id: BARRIER_ID,
                    x1: zones[k].x,
                    y1: zones[k].y,
                    x2: zones[k].x,
                    y2: (zones[k].y + zones[k].height - 1) as i32,
                },
            ),
        };
    assert(has_pixels(zones[k]));
    assert(zones[k].x <= zones[i].x);
}

/// The right barrier stands in the column behind the right end of all zones that
/// have pixels, along the rows of the tallest zone there. It is there whenever
/// that column and the rows of all zones have coordinates.
pub proof fn law_the_right_barrier(zones: Seq<Zone>, i: int, result: CaptureResult<Barrier>)
    requires
        barrier_for(CaptureEdge::Right, zones, result),
        0 <= i < zones.len(),
        has_pixels(zones[i]),
        zones[i].x + zones[i].width <= i32::MAX,
        forall|j: int|
            0 <= j < zones.len() && has_pixels(#[trigger] zones[j]) ==> zones[j].x + zones[j].width
                <= zones[i].x + zones[i].width && zones[j].width <= i32::MAX && (zones[j].x
                + zones[j].width == zones[i].x + zones[i].width ==> zones[j].height
                <= zones[i].height) && zones[j].y + zones[j].height - 1 <= i32::MAX
                && zones[j].height <= i32::MAX,
    ensures
        result matches Ok(barrier) && barrier.x1 == zones[i].x + zones[i].width && barrier.x2
            == barrier.x1 && barrier.y2 - barrier.y1 + 1 == zones[i].height && exists|k: int|
            0 <= k < zones.len() && has_pixels(#[trigger] zones[k]) && zones[k].x + zones[k].width
                == barrier.x1 && zones[k].y == barrier.y1 && zones[k].height == zones[i].height,
{
    assert(usable(zones[i]));
    assert forall|k: int| !(#[trigger] is_first_faulty(zones, k)) by {
        if is_first_faulty(zones, k) {
            assert(has_pixels(zones[k]));
        }
    }
    let k = choose|k: int| #[trigger]
        is_rightmost(zones, k) && match bottom_fault(
            zones[k],
            "rightmost zone height cannot be represented in portal coordinates"@,
            "rightmost zone coordinates overflow i32"@,
        ) {
            Some(text) => crate::portal::fails(result, text),
            None => result == Ok::<Barrier, PortalError>(
                Barrier {
                    id: BARRIER_ID,
                    x1: (zones[k].x + zones[k].width) as i32,
                    y1: zones[k].y,
                    x2: (zones[k].x + zones[k].width) as i32,
                    y2: (zones[k].y + zones[k].height - 1) as i32,
                },
            ),
        };
    assert(has_pixels(zones[k]));
    assert(zones[i].x + zones[i].width <= zones[k].x + zones[k].width);
}

/// Without a zone that has pixels there is no barrier, and there is none where a
/// zone goes beyond the coordinates.
pub proof fn law_no_barrier_without_zones(
    edge: CaptureEdge,
    zones: Seq<Zone>,
    result: CaptureResult<Barrier>,
)
    requires
        barrier_for(edge, zones, result),
        forall|j: int| 0 <= j < zones.len() ==> !has_pixels(#[trigger] zones[j]),
    ensures
        result is Err,
{
    assert forall|j: int| 0 <= j < zones.len() implies !usable(#[trigger] zones[j]) by {
        assert(!has_pixels(zones[j]));
    }
}

/// The session starts exactly if the answer is yes, grants all that was asked for
/// and, where permission is to be kept, brings no token that cannot be one.
pub proof fn law_when_capture_starts(setup: CaptureView, response: PortalResponse)
    ensures
        start_fault(setup, response) is None <==> {
            &&& response.code == 0
            &&& response.results.capabilities !is WrongType
            &&& setup.capabilities.within(granted_bits(response))
            &&& setup.persistence.enabled ==> match response.results.restore_token {
                Field::Missing => true,
                Field::WrongType(_) => false,
                Field::Value(value) => crate::portal_persistence::token_fault(value@) is None,
            }
        },
        response.results.capabilities matches Field::Value(bits) ==> granted_bits(response) == bits,
        response.results.capabilities is Missing ==> granted_bits(response) == 0,
{
}

/// The token that is kept is the one that the answer brings, and only where
/// permission is to be kept.
pub proof fn law_the_new_token_is_kept(setup: CaptureView, response: PortalResponse)
    ensures
        !setup.persistence.enabled ==> replacement(setup, response) is None,
        setup.persistence.enabled ==> match response.results.restore_token {
            Field::Value(value) => replacement(setup, response) == Some(value@),
            _ => replacement(setup, response) is None,
        },
{
}

/// The steps come in one order, and taking one changes nothing else.
pub proof fn law_steps_of_capture(setup: CaptureView, stage: SetupStage)
    ensures
        SetupStage::Session.rank() < SetupStage::Properties.rank() < SetupStage::Creation.rank()
            < SetupStage::Consent.rank() < SetupStage::Zones.rank() < SetupStage::Barriers.rank()
            < SetupStage::Connection.rank() < SetupStage::Enabling.rank(),
        setup.at(stage).stage == stage,
        setup.at(stage).edge == setup.edge,
        setup.at(stage).capabilities == setup.capabilities,
        setup.at(stage).persistence == setup.persistence,
        setup.at(stage).granted == setup.granted,
        setup.at(stage).token == setup.token,
        setup.at(stage).barrier == setup.barrier,
{
}

/// Nothing is armed that was not granted.
pub proof fn law_nothing_is_armed_without_consent(setup: CaptureView)
    requires
        setup.wf(),
    ensures
        setup.stage is Zones || setup.stage is Barriers || setup.stage is Connection
            || setup.stage is Enabling ==> setup.capabilities.within(setup.granted),
        setup.stage is Barriers || setup.stage is Connection || setup.stage is Enabling
            ==> setup.barrier is Some,
        setup.token is Some ==> setup.persistence.enabled,
{
}

/// What is told when capture cannot be had.
pub proof fn law_capture_refusals_are_told(
    capabilities: CaptureCapabilities,
    edge: CaptureEdge,
    a: u32,
    b: u32,
)
    ensures
        support_text(capabilities, a, b) == "InputCapture v2 with "@ + capabilities.word()
            + " is required; found version="@ + crate::text::decimal(a as nat)
            + ", capabilities="@ + crate::text::decimal(b as nat),
        consent_text(capabilities, b) == "portal consent did not grant "@ + capabilities.word()
            + "; granted capabilities="@ + crate::text::decimal(b as nat),
        denied_text(edge) == "KWin denied the computed "@ + edge.word()
            + "-edge barrier; inspect the reported zones and desktop topology"@,
{
}

/// A new session begins at its first step, with the edge, the capabilities and
/// the settings that it was given; nothing is granted, kept or armed yet. Without
/// persistence there is no token to offer.
pub proof fn law_sessions_begin_with_nothing(
    edge: CaptureEdge,
    capabilities: CaptureCapabilities,
    persistence: crate::portal_persistence::PersistenceView,
)
    ensures
        ({
            let setup = fresh_setup(edge, capabilities, persistence);
            &&& setup.edge == edge && setup.capabilities == capabilities && setup.persistence
                == persistence
            &&& setup.stage == SetupStage::Session
            &&& setup.granted == 0
            &&& setup.token is None && setup.barrier is None
        }),
        !no_persistence().enabled,
        no_persistence().token is None,
{
}

/// Of the zones that reach equally far and are equally tall, the last counts on
/// the left and the first on the right.
pub proof fn law_ties_between_zones(zones: Seq<Zone>, i: int, j: int)
    requires
        0 <= i < zones.len(),
        0 <= j < zones.len(),
        zones[j].width > 0,
        zones[j].height > 0,
        zones[j].height == zones[i].height,
    ensures
        is_leftmost(zones, i) && zones[j].x == zones[i].x ==> j <= i,
        is_rightmost(zones, i) && zones[j].x + zones[j].width == zones[i].x + zones[i].width ==> i
            <= j,
{
    assert(usable(zones[j]));
}

/// What has no coordinate is told: a size that does not fit, or an end that does
/// not. Everything else has one.
pub proof fn law_coordinates_that_do_not_fit(
    zone: Zone,
    too_high: Seq<char>,
    overflow: Seq<char>,
)
    requires
        zone.height > 0,
    ensures
        zone.height > 0x8000_0000 ==> bottom_fault(zone, too_high, overflow) == Some(too_high),
        zone.height <= 0x8000_0000 && zone.y + zone.height > 0x8000_0000 ==> bottom_fault(
            zone,
            too_high,
            overflow,
        ) == Some(overflow),
        zone.height <= 0x8000_0000 && zone.y + zone.height <= 0x8000_0000 ==> bottom_fault(
            zone,
            too_high,
            overflow,
        ) is None,
        zone.width >= 0x8000_0000 ==> right_fault(zone) == Some(
            "zone width cannot be represented in portal coordinates"@,
        ),
        zone.width < 0x8000_0000 && zone.x + zone.width >= 0x8000_0000 ==> right_fault(zone)
            == Some("rightmost zone coordinates overflow i32"@),
        zone.width < 0x8000_0000 && zone.x + zone.width < 0x8000_0000 ==> right_fault(zone) is None,
{
}

} // verus!
