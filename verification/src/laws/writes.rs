//! What moves and torque changes do to the registry, and what nothing
//! else does.

use crate::intent::Intent;
use crate::laws::order::{issued, lemma_step_takes_the_oldest};
use crate::link::{Action, FieldKind, Reply};
use crate::model::Model;
use crate::registry::same_addresses;
use vstd::prelude::*;

verus! {

/// Whether `intent` is a move of `address`.
pub open spec fn moves(intent: Option<Intent>, address: u8) -> bool {
    match intent {
        Some(Intent::Move { address: a, .. }) => a == address,
        _ => false,
    }
}

/// Whether `intent` is a move of `address` to `position`.
pub open spec fn moves_to(intent: Option<Intent>, address: u8, position: u16) -> bool {
    match intent {
        Some(Intent::Move { address: a, position: p, .. }) => a == address && p == position,
        _ => false,
    }
}

/// Whether `intent` is a torque change of `address`.
pub open spec fn sets_torque_of(intent: Option<Intent>, address: u8) -> bool {
    match intent {
        Some(Intent::SetTorque { address: a, .. }) => a == address,
        _ => false,
    }
}

/// A move marks the registry at once.  In the state in which the write of a
/// move is handed out, before any reply to it can have come, the entry of
/// the actuator shows the position that was asked for.
pub proof fn law_move_marks_the_registry_at_once(
    m: Model,
    reply: Reply,
    now: u64,
    address: u8,
    position: u16,
    speed: u16,
    acceleration: u8,
)
    requires
        m.wf(),
        m.step(reply, now).pending == (Action::WriteMove {
            address,
            position,
            speed,
            acceleration,
        }),
    ensures
        m.waiting().len() > 0,
        m.waiting()[0] == (Intent::Move { address, position, speed, acceleration }),
        forall|i: int|
            0 <= i < m.step(reply, now).registry.len() && (#[trigger] m.step(
                reply,
                now,
            ).registry[i]).address == address ==> m.step(reply, now).registry[i].commanded_position
                == position,
{
    lemma_step_takes_the_oldest(m, reply, now);
}

/// A write that fails takes nothing back.  Whatever the reply to the write
/// of a move is, a failure of the link included, the commanded position that
/// the move has put into the registry stays, unless the same step applies
/// the next intent and that intent is another move of the same actuator.
pub proof fn law_failed_write_keeps_the_mark(m: Model, reply: Reply, now: u64)
    requires
        m.wf(),
        m.pending is WriteMove,
    ensures
        m.step(reply, now).registry.len() == m.registry.len(),
        forall|i: int|
            0 <= i < m.registry.len() ==> {
                let after = #[trigger] m.step(reply, now).registry[i];
                &&& after.address == m.registry[i].address
                &&& (after.commanded_position == m.registry[i].commanded_position || moves(
                    issued(m.step(reply, now)),
                    after.address,
                ))
            },
{
}

/// Likewise the torque flag that a torque change has set stays whatever the
/// reply to its write is, unless the same step applies another torque change
/// of the same actuator.
pub proof fn law_failed_torque_write_keeps_the_flag(m: Model, reply: Reply, now: u64)
    requires
        m.wf(),
        m.pending is WriteTorque,
    ensures
        m.step(reply, now).registry.len() == m.registry.len(),
        forall|i: int|
            0 <= i < m.registry.len() ==> {
                let after = #[trigger] m.step(reply, now).registry[i];
                &&& after.address == m.registry[i].address
                &&& (after.torque_engaged == m.registry[i].torque_engaged || sets_torque_of(
                    issued(m.step(reply, now)),
                    after.address,
                ))
            },
{
}

/// The two positions have separate writers.  Outside the completion of a
/// scan, a step changes a commanded position only by applying a move of
/// that actuator, and a measured position only by a reading of the position
/// of that actuator that succeeded.
pub proof fn law_positions_have_separate_writers(m: Model, reply: Reply, now: u64)
    requires
        m.wf(),
        !(m.pending is Probe),
    ensures
        same_addresses(m.step(reply, now).registry, m.registry),
        forall|i: int|
            0 <= i < m.registry.len() ==> {
                let before = m.registry[i];
                let after = #[trigger] m.step(reply, now).registry[i];
                &&& (after.commanded_position != before.commanded_position ==> moves_to(
                    issued(m.step(reply, now)),
                    after.address,
                    after.commanded_position,
                ))
                &&& (after.measured_position != before.measured_position ==> m.pending
                    == (Action::Read { address: after.address, field: FieldKind::Position })
                    && reply == Reply::Value(after.measured_position))
            },
{
}

} // verus!
