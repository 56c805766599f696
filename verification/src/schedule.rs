//! The schedule of the telemetry: which fields a poll cycle reads, and in
//! which order.

use crate::link::FieldKind;
use vstd::prelude::*;

verus! {

/// Whether `field` is read in poll cycle `cycle`.  Position and temperature
/// are read in every cycle; the other four take turns, so that no cycle pays
/// for all of them.
pub open spec fn scheduled(field: FieldKind, cycle: u32) -> bool {
    match field {
        FieldKind::Position => true,
        FieldKind::Temperature => true,
        FieldKind::Voltage => cycle % 5 == 0,
        FieldKind::Current => cycle % 5 == 1,
        FieldKind::Load => cycle % 5 == 2,
        FieldKind::Speed => cycle % 3 == 0,
    }
}

/// Executable form of [`scheduled`].
pub fn is_scheduled(field: FieldKind, cycle: u32) -> (b: bool)
    ensures
        b == scheduled(field, cycle),
{
    match field {
        FieldKind::Position => true,
        FieldKind::Temperature => true,
        FieldKind::Voltage => cycle % 5 == 0,
        FieldKind::Current => cycle % 5 == 1,
        FieldKind::Load => cycle % 5 == 2,
        FieldKind::Speed => cycle % 3 == 0,
    }
}

/// The place of a field in the order in which one actuator is read.
pub open spec fn rank(field: FieldKind) -> int {
    match field {
        FieldKind::Position => 0,
        FieldKind::Temperature => 1,
        FieldKind::Voltage => 2,
        FieldKind::Current => 3,
        FieldKind::Load => 4,
        FieldKind::Speed => 5,
    }
}

/// The field that follows `field` in that order, if any.
pub open spec fn successor(field: FieldKind) -> Option<FieldKind> {
    match field {
        FieldKind::Position => Some(FieldKind::Temperature),
        FieldKind::Temperature => Some(FieldKind::Voltage),
        FieldKind::Voltage => Some(FieldKind::Current),
        FieldKind::Current => Some(FieldKind::Load),
        FieldKind::Load => Some(FieldKind::Speed),
        FieldKind::Speed => None,
    }
}

/// The next field after `field` that cycle `cycle` reads.
pub open spec fn next_field(field: FieldKind, cycle: u32) -> Option<FieldKind>
    decreases 5 - rank(field),
{
    match successor(field) {
        None => None,
        Some(f) => if scheduled(f, cycle) {
            Some(f)
        } else {
            next_field(f, cycle)
        },
    }
}

/// Executable form of [`successor`].
pub fn following(field: FieldKind) -> (r: Option<FieldKind>)
    ensures
        r == successor(field),
{
    match field {
        FieldKind::Position => Some(FieldKind::Temperature),
        FieldKind::Temperature => Some(FieldKind::Voltage),
        FieldKind::Voltage => Some(FieldKind::Current),
        FieldKind::Current => Some(FieldKind::Load),
        FieldKind::Load => Some(FieldKind::Speed),
        FieldKind::Speed => None,
    }
}

/// Executable form of [`next_field`].
pub fn next_scheduled(field: FieldKind, cycle: u32) -> (r: Option<FieldKind>)
    ensures
        r == next_field(field, cycle),
    decreases 5 - rank(field),
{
    match following(field) {
        None => None,
        Some(f) => if is_scheduled(f, cycle) {
            Some(f)
        } else {
            next_scheduled(f, cycle)
        },
    }
}

/// The cycle counter after `cycle`; it starts over when it runs out.
pub open spec fn cycle_after(cycle: u32) -> u32 {
    if cycle == u32::MAX {
        0
    } else {
        (cycle + 1) as u32
    }
}

/// Executable form of [`cycle_after`].
pub fn next_cycle(cycle: u32) -> (next: u32)
    ensures
        next == cycle_after(cycle),
{
    if cycle == u32::MAX {
        0
    } else {
        cycle + 1
    }
}

/// `field` alone where cycle `cycle` reads it, else nothing.
pub open spec fn turn(field: FieldKind, cycle: u32) -> Seq<FieldKind> {
    if scheduled(field, cycle) {
        seq![field]
    } else {
        Seq::empty()
    }
}

/// The fields that cycle `cycle` reads of every actuator, in the order in
/// which it reads them.
pub open spec fn fields_of(cycle: u32) -> Seq<FieldKind> {
    seq![FieldKind::Position, FieldKind::Temperature] + turn(FieldKind::Voltage, cycle) + turn(
        FieldKind::Current,
        cycle,
    ) + turn(FieldKind::Load, cycle) + turn(FieldKind::Speed, cycle)
}

/// [`next_field`] walks along [`fields_of`].
pub proof fn lemma_next_field_walks_the_fields(cycle: u32, place: int)
    requires
        0 <= place < fields_of(cycle).len(),
    ensures
        next_field(fields_of(cycle)[place], cycle) == if place + 1 < fields_of(cycle).len() {
            Some(fields_of(cycle)[place + 1])
        } else {
            None
        },
{
    reveal_with_fuel(next_field, 6);
    let v = scheduled(FieldKind::Voltage, cycle);
    let c = scheduled(FieldKind::Current, cycle);
    let l = scheduled(FieldKind::Load, cycle);
    let s = scheduled(FieldKind::Speed, cycle);
    let head = seq![FieldKind::Position, FieldKind::Temperature];
    let f = fields_of(cycle);
    assert(!(v && c) && !(v && l) && !(c && l));
    if v {
        if s {
            assert(f =~= head + seq![FieldKind::Voltage, FieldKind::Speed]);
        } else {
            assert(f =~= head + seq![FieldKind::Voltage]);
        }
    } else if c {
        if s {
            assert(f =~= head + seq![FieldKind::Current, FieldKind::Speed]);
        } else {
            assert(f =~= head + seq![FieldKind::Current]);
        }
    } else if l {
        if s {
            assert(f =~= head + seq![FieldKind::Load, FieldKind::Speed]);
        } else {
            assert(f =~= head + seq![FieldKind::Load]);
        }
    } else {
        if s {
            assert(f =~= head + seq![FieldKind::Speed]);
        } else {
            assert(f =~= head);
        }
    }
}

/// The schedule is staggered: a cycle reads the position and the
/// temperature, at most one of voltage, current and load, and the speed in
/// one cycle of three.  So no cycle reads more than four of the six fields.
pub proof fn lemma_schedule_is_staggered(cycle: u32)
    ensures
        fields_of(cycle)[0] == FieldKind::Position,
        fields_of(cycle)[1] == FieldKind::Temperature,
        2 <= fields_of(cycle).len() <= 4,
        !(scheduled(FieldKind::Voltage, cycle) && scheduled(FieldKind::Current, cycle)),
        !(scheduled(FieldKind::Voltage, cycle) && scheduled(FieldKind::Load, cycle)),
        !(scheduled(FieldKind::Current, cycle) && scheduled(FieldKind::Load, cycle)),
{
}

/// No field is starved: of any six cycles in a row, as the engine counts
/// them, at least one reads it.
pub proof fn law_every_field_has_its_turn(field: FieldKind, cycle: u32)
    ensures
        ({
            let second = cycle_after(cycle);
            let third = cycle_after(second);
            let fourth = cycle_after(third);
            let fifth = cycle_after(fourth);
            let sixth = cycle_after(fifth);
            scheduled(field, cycle) || scheduled(field, second) || scheduled(field, third)
                || scheduled(field, fourth) || scheduled(field, fifth) || scheduled(field, sixth)
        }),
{
}

} // verus!
