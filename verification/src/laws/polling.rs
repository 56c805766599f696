//! Telemetry: what one reading does, and which readings a cycle makes.

use crate::laws::runs::{replies_without_link_failure, requests, run, Input};
use crate::link::{Action, FieldKind, Reply, LAST_ADDRESS};
use crate::model::{lemma_step_keeps_wf, Model, Sighting};
use crate::registry::{holds, same_addresses, ActuatorState};
use crate::schedule::{
    cycle_after, fields_of, lemma_next_field_walks_the_fields, lemma_schedule_is_staggered,
};
use vstd::prelude::*;

verus! {

/// Fault isolation.  A reading that fails for another reason than the link
/// leaves the whole registry as it was, time stamps included, and the cycle
/// goes on with exactly the request that would have followed a reading that
/// succeeded.
pub proof fn law_failed_reading_is_isolated(m: Model, reply: Reply, now: u64, value: u16)
    requires
        m.wf(),
        m.pending is Read,
        !(reply is Value),
        !reply.is_link_failure(),
    ensures
        m.step(reply, now).registry == m.registry,
        m.step(reply, now).connected,
        m.step(reply, now).pending == m.step(Reply::Value(value), now).pending,
{
}

/// A reading that succeeds refreshes the one field it was made for, of the
/// one actuator it was made for, and stamps that entry with the time of the
/// reply.  Every other entry stays as it was.
pub proof fn law_reading_refreshes_one_field(m: Model, value: u16, now: u64)
    requires
        m.wf(),
        m.pending is Read,
    ensures
        m.step(Reply::Value(value), now).registry.len() == m.registry.len(),
        forall|i: int|
            0 <= i < m.registry.len() ==> (#[trigger] m.step(Reply::Value(value), now).registry[i])
                == if m.registry[i].address == m.pending->Read_address {
                m.registry[i].refreshed(m.pending->Read_field, value, now)
            } else {
                m.registry[i]
            },
{
}

/// The readings that cycle `cycle` makes of the actuator at `address`.
pub open spec fn readings_of(address: u8, cycle: u32) -> Seq<Action> {
    Seq::new(
        fields_of(cycle).len(),
        |i: int| Action::Read { address, field: fields_of(cycle)[i] },
    )
}

/// All the readings that cycle `cycle` makes of the actuators in
/// `registry`: those of the first actuator, then those of the second, and
/// so on.
pub open spec fn plan(registry: Seq<ActuatorState>, cycle: u32) -> Seq<Action>
    decreases registry.len(),
{
    if registry.len() == 0 {
        Seq::empty()
    } else {
        readings_of(registry[0].address, cycle) + plan(registry.skip(1), cycle)
    }
}

/// The engine is polling `registry` in cycle `cycle` and has asked for the
/// reading in place `place` of the actuator in place `slot`.
pub open spec fn polling(
    m: Model,
    registry: Seq<ActuatorState>,
    cycle: u32,
    slot: int,
    place: int,
) -> bool {
    &&& m.wf()
    &&& m.connected
    &&& m.cycle == cycle
    &&& same_addresses(m.registry, registry)
    &&& 0 <= slot < registry.len()
    &&& m.slot == slot
    &&& 0 <= place < fields_of(cycle).len()
    &&& m.pending == (Action::Read {
        address: registry[slot].address,
        field: fields_of(cycle)[place],
    })
}

/// What is left of the plan after the reading in place `place` of the
/// actuator in place `slot`.
pub open spec fn rest_of_plan(
    registry: Seq<ActuatorState>,
    cycle: u32,
    slot: int,
    place: int,
) -> Seq<Action> {
    readings_of(registry[slot].address, cycle).skip(place + 1) + plan(
        registry.skip(slot + 1),
        cycle,
    )
}

/// The two requests that end every cycle: the surface is notified, then the
/// engine pauses for the cadence.
pub open spec fn end_of_cycle(cadence_ms: u64) -> Seq<Action> {
    seq![Action::Notify, Action::Sleep { millis: cadence_ms }]
}

/// Whether `n` is the state in which a cycle that started in `m` ends: the
/// engine pauses for the cadence, the next cycle has its number, and the
/// intents that wait are those that waited.
pub open spec fn ends_cycle_of(n: Model, m: Model) -> bool {
    &&& n.wf()
    &&& n.connected
    &&& n.pending == (Action::Sleep { millis: m.cadence_ms })
    &&& n.cycle == cycle_after(m.cycle)
    &&& same_addresses(n.registry, m.registry)
    &&& n.batch == m.batch
    &&& n.cursor == m.cursor
    &&& n.queue == m.queue
}

/// All replies of `inputs` but the first.
pub proof fn lemma_rest_has_no_link_failure(inputs: Seq<Input>)
    requires
        replies_without_link_failure(inputs),
        inputs.len() > 0,
    ensures
        replies_without_link_failure(inputs.skip(1)),
        inputs[0] is Step,
        !inputs[0]->Step_0.is_link_failure(),
{
    let rest = inputs.skip(1);
    assert forall|i: int| 0 <= i < rest.len() implies (#[trigger] rest[i] matches Input::Step(
        reply,
        _,
    ) && !reply.is_link_failure()) by {
        assert(rest[i] == inputs[i + 1]);
    }
}

/// After the last reading the surface is notified and the engine pauses.
pub proof fn lemma_cycle_ends(m: Model, inputs: Seq<Input>)
    requires
        m.wf(),
        m.pending is Notify,
        inputs.len() == 1,
        inputs[0] is Step,
    ensures
        requests(m, inputs) == seq![Action::Sleep { millis: m.cadence_ms }],
        ends_cycle_of(run(m, inputs), m),
{
    let reply = inputs[0]->Step_0;
    let now = inputs[0]->Step_1;
    let n = m.step(reply, now);
    lemma_step_keeps_wf(m, reply, now);
    assert(inputs.skip(1).len() == 0);
    assert(run(n, inputs.skip(1)) == n);
    assert(requests(n, inputs.skip(1)) =~= Seq::<Action>::empty());
    assert(requests(m, inputs) =~= seq![Action::Sleep { millis: m.cadence_ms }]);
}

/// From any point of a poll cycle on, the engine asks for exactly the rest
/// of the plan, then notifies the surface and pauses, whatever the readings
/// return short of a failure of the link.
pub proof fn lemma_polling_follows_the_plan(
    m: Model,
    registry: Seq<ActuatorState>,
    cycle: u32,
    slot: int,
    place: int,
    inputs: Seq<Input>,
)
    requires
        polling(m, registry, cycle, slot, place),
        replies_without_link_failure(inputs),
        inputs.len() == rest_of_plan(registry, cycle, slot, place).len() + 2,
    ensures
        requests(m, inputs) == rest_of_plan(registry, cycle, slot, place) + end_of_cycle(
            m.cadence_ms,
        ),
        ends_cycle_of(run(m, inputs), m),
    decreases inputs.len(),
{
    let rest = inputs.skip(1);
    lemma_rest_has_no_link_failure(inputs);
    let reply = inputs[0]->Step_0;
    let now = inputs[0]->Step_1;
    let n = m.step(reply, now);
    lemma_step_keeps_wf(m, reply, now);
    lemma_next_field_walks_the_fields(cycle, place);
    let here = readings_of(registry[slot].address, cycle);
    let left = rest_of_plan(registry, cycle, slot, place);
    let tail = end_of_cycle(m.cadence_ms);
    if place + 1 < fields_of(cycle).len() {
        assert(polling(n, registry, cycle, slot, place + 1));
        let next_left = rest_of_plan(registry, cycle, slot, place + 1);
        assert(left =~= seq![n.pending] + next_left);
        lemma_polling_follows_the_plan(n, registry, cycle, slot, place + 1, rest);
        assert(requests(m, inputs) =~= left + tail);
    } else {
        assert(here.skip(place + 1) =~= Seq::<Action>::empty());
        if slot + 1 < registry.len() {
            lemma_schedule_is_staggered(cycle);
            assert(polling(n, registry, cycle, slot + 1, 0));
            let after = registry.skip(slot + 1);
            assert(after[0] == registry[slot + 1]);
            assert(after.skip(1) =~= registry.skip(slot + 2));
            let next_left = rest_of_plan(registry, cycle, slot + 1, 0);
            assert(readings_of(registry[slot + 1].address, cycle) =~= seq![n.pending]
                + readings_of(registry[slot + 1].address, cycle).skip(1));
            assert(left =~= seq![n.pending] + next_left);
            lemma_polling_follows_the_plan(n, registry, cycle, slot + 1, 0, rest);
            assert(requests(m, inputs) =~= left + tail);
        } else {
            assert(registry.skip(slot + 1) =~= Seq::<ActuatorState>::empty());
            assert(left =~= Seq::<Action>::empty());
            assert(n.pending == Action::Notify);
            lemma_cycle_ends(n, rest);
            assert(requests(m, inputs) =~= left + tail);
        }
    }
}

/// Every actuator is read in every cycle.  Once a cycle has started to
/// poll, the engine asks for every reading that the schedule gives to that
/// cycle, of every actuator in the registry, in ascending order of address;
/// then it notifies the surface and pauses for the cadence.  What the
/// readings return does not change that, as long as the link itself holds:
/// an actuator that fails to answer costs no other actuator a reading.
pub proof fn law_cycle_reads_every_actuator(m: Model, inputs: Seq<Input>)
    requires
        m.wf(),
        m.connected,
        m.registry.len() > 0,
        m.slot == 0,
        m.pending == (Action::Read {
            address: m.registry[0].address,
            field: FieldKind::Position,
        }),
        replies_without_link_failure(inputs),
        inputs.len() == plan(m.registry, m.cycle).len() + 1,
    ensures
        seq![m.pending] + requests(m, inputs) == plan(m.registry, m.cycle) + end_of_cycle(
            m.cadence_ms,
        ),
        ends_cycle_of(run(m, inputs), m),
{
    lemma_first_reading_heads_the_plan(m.registry, m.cycle);
    lemma_polling_follows_the_plan(m, m.registry, m.cycle, 0, 0, inputs);
    assert(seq![m.pending] + requests(m, inputs) =~= plan(m.registry, m.cycle) + end_of_cycle(
        m.cadence_ms,
    ));
}

/// The plan of a registry that is not empty starts with the position of
/// its first actuator.
pub proof fn lemma_first_reading_heads_the_plan(registry: Seq<ActuatorState>, cycle: u32)
    requires
        registry.len() > 0,
    ensures
        fields_of(cycle)[0] == FieldKind::Position,
        plan(registry, cycle) == seq![
            Action::Read { address: registry[0].address, field: FieldKind::Position },
        ] + rest_of_plan(registry, cycle, 0, 0),
{
    lemma_schedule_is_staggered(cycle);
    let first = Action::Read { address: registry[0].address, field: FieldKind::Position };
    let here = readings_of(registry[0].address, cycle);
    assert(here =~= seq![first] + here.skip(1));
    assert(plan(registry, cycle) =~= seq![first] + rest_of_plan(registry, cycle, 0, 0));
}

/// Commands come before readings.  While a reading is under way, or the
/// surface is being notified, the batch of the cycle is used up: the only
/// intents that wait are those sent since the cycle took its batch.
pub proof fn law_commands_come_before_readings(m: Model)
    requires
        m.wf(),
        m.pending is Read || m.pending is Notify,
    ensures
        m.waiting() == m.queue,
{
    assert(m.waiting() =~= m.queue);
}

/// A cycle takes one batch.  When the last write of the batch has been
/// answered, the cycle goes on to its readings, however many intents have
/// been sent in the meantime: a surface that keeps sending cannot keep the
/// engine from polling.
pub proof fn law_a_cycle_takes_one_batch(m: Model, reply: Reply, now: u64)
    requires
        m.wf(),
        m.pending is WriteMove || m.pending is WriteTorque,
        m.cursor == m.batch.len(),
        !reply.is_link_failure(),
    ensures
        m.step(reply, now).queue == m.queue,
        m.step(reply, now).pending == if m.registry.len() > 0 {
            Action::Read { address: m.registry[0].address, field: FieldKind::Position }
        } else {
            Action::Notify
        },
{
}

/// Time stamps follow the clock.  As long as the clock does not run
/// backwards, no entry is ever stamped with a time that is yet to come.
pub proof fn law_time_stamps_follow_the_clock(m: Model, reply: Reply, now: u64)
    requires
        m.wf(),
        forall|i: int| 0 <= i < m.registry.len() ==> (#[trigger] m.registry[i]).last_update <= now,
    ensures
        forall|i: int|
            0 <= i < m.step(reply, now).registry.len() ==> (#[trigger] m.step(
                reply,
                now,
            ).registry[i]).last_update <= now,
{
    let n = m.step(reply, now);
    if m.pending is Probe && !reply.is_link_failure() && m.pending->Probe_address
        >= LAST_ADDRESS {
        let address = m.pending->Probe_address;
        let seen = match reply {
            Reply::Value(position) => Model {
                found: m.found.push(Sighting { address, position }),
                ..m
            },
            _ => m,
        };
        assert forall|i: int| 0 <= i < seen.found.len() implies (#[trigger] seen.installed(
            now,
        )[i]).last_update <= now by {
            if seen.connected && holds(seen.registry, seen.found[i].address) {
                let k = choose|k: int|
                    0 <= k < seen.registry.len() && (#[trigger] seen.registry[k]).address
                        == seen.found[i].address;
                assert(seen.registry[k].last_update <= now);
            }
        }
    }
}

} // verus!
