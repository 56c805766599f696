//! What a scan leaves in the registry, on connecting and on a rescan.

use crate::intent::Intent;
use crate::laws::order::{issued, law_intents_are_applied_in_order};
use crate::laws::runs::{replies_without_link_failure, run, time_of_last, Input};
use crate::link::{Action, Reply, FIRST_ADDRESS, LAST_ADDRESS};
use crate::model::{lemma_installed_ascending, lemma_step_keeps_wf, Model, Sighting};
use crate::registry::{
    entry, holds, lemma_entry_is_unique, lemma_same_addresses_same_places, same_addresses,
    ActuatorState,
};
use vstd::prelude::*;

verus! {

/// The actuators that answer a run of probes with a position, where the
/// first input answers the probe of address `first`, the next one that of
/// the address after it, and so on.
pub open spec fn sightings(first: int, inputs: Seq<Input>) -> Seq<Sighting>
    decreases inputs.len(),
{
    if inputs.len() == 0 {
        Seq::empty()
    } else {
        match inputs[0] {
            Input::Step(Reply::Value(position), _) => seq![
                Sighting { address: first as u8, position },
            ] + sightings(first + 1, inputs.skip(1)),
            _ => sightings(first + 1, inputs.skip(1)),
        }
    }
}

/// The position that the reply to the probe of `address` reports, where
/// `inputs` answer the probes from `first` onwards.
pub open spec fn answered(first: int, inputs: Seq<Input>, address: int) -> Option<u16> {
    if first <= address < first + inputs.len() {
        match inputs[address - first] {
            Input::Step(Reply::Value(position), _) => Some(position),
            _ => None,
        }
    } else {
        None
    }
}

/// Whether applying `intent` marks the registry entry of `address`.
pub open spec fn aims_at(intent: Option<Intent>, address: u8) -> bool {
    match intent {
        Some(Intent::Move { address: a, .. }) => a == address,
        Some(Intent::SetTorque { address: a, .. }) => a == address,
        _ => false,
    }
}

/// A scan that no link failure interrupts ends as if all its answers had
/// come at once.
pub proof fn lemma_scan_completes(m: Model, inputs: Seq<Input>)
    requires
        m.wf(),
        m.pending is Probe,
        inputs.len() == LAST_ADDRESS - m.pending->Probe_address + 1,
        replies_without_link_failure(inputs),
    ensures
        run(m, inputs) == (Model {
            found: m.found + sightings(m.pending->Probe_address as int, inputs),
            ..m
        }).finish_scan(time_of_last(inputs)),
    decreases inputs.len(),
{
    let address = m.pending->Probe_address;
    let rest = inputs.skip(1);
    assert(inputs[0] is Step);
    let reply = inputs[0]->Step_0;
    let now = inputs[0]->Step_1;
    let next = m.step(reply, now);
    lemma_step_keeps_wf(m, reply, now);
    let all = m.found + sightings(address as int, inputs);
    if address < LAST_ADDRESS {
        assert(replies_without_link_failure(rest)) by {
            assert forall|i: int| 0 <= i < rest.len() implies (#[trigger] rest[i] matches Input::Step(
                reply,
                _,
            ) && !reply.is_link_failure()) by {
                assert(rest[i] == inputs[i + 1]);
            }
        }
        lemma_scan_completes(next, rest);
        assert(next.found + sightings(address + 1, rest) =~= all);
        assert(time_of_last(rest) == time_of_last(inputs)) by {
            assert(rest.last() == inputs.last());
        }
        let t = time_of_last(inputs);
        let a = Model { found: all, ..next };
        let b = Model { found: all, ..m };
        assert(a.installed(t) =~= b.installed(t));
        assert(a.finish_scan(t) == b.finish_scan(t));
    } else {
        assert(rest.len() == 0);
        assert(sightings(address + 1, rest) =~= Seq::<Sighting>::empty());
        assert(run(next, rest) == next);
        let seen = match reply {
            Reply::Value(position) => Model {
                found: m.found.push(Sighting { address, position }),
                ..m
            },
            _ => m,
        };
        assert(seen.found =~= all);
        assert(inputs.last() == inputs[0]);
    }
}

/// The sightings of a run of probes are the addresses that answered with a
/// position, each once, in ascending order.
pub proof fn lemma_sightings_are_the_answers(first: int, inputs: Seq<Input>)
    requires
        0 <= first,
        first + inputs.len() <= 256,
    ensures
        forall|i: int|
            0 <= i < sightings(first, inputs).len() ==> answered(
                first,
                inputs,
                (#[trigger] sightings(first, inputs)[i]).address as int,
            ) == Some(sightings(first, inputs)[i].position),
        forall|i: int, j: int|
            0 <= i < j < sightings(first, inputs).len() ==> sightings(first, inputs)[i].address
                < sightings(first, inputs)[j].address,
        forall|a: int|
            (#[trigger] answered(first, inputs, a)) is Some ==> exists|i: int|
                0 <= i < sightings(first, inputs).len() && (#[trigger] sightings(
                    first,
                    inputs,
                )[i]).address == a,
    decreases inputs.len(),
{
    if inputs.len() > 0 {
        let rest = inputs.skip(1);
        let s = sightings(first, inputs);
        let r = sightings(first + 1, rest);
        lemma_sightings_are_the_answers(first + 1, rest);
        assert forall|a: int| first < a implies answered(first, inputs, a) == answered(
            first + 1,
            rest,
            a,
        ) by {
            if a < first + inputs.len() {
                assert(rest[a - first - 1] == inputs[a - first]);
            }
        }
        let grown = inputs[0] matches Input::Step(Reply::Value(_), _);
        let shift: int = if grown {
            1
        } else {
            0
        };
        assert(s.len() == r.len() + shift);
        assert forall|i: int| shift <= i < s.len() implies s[i] == r[i - shift] by {}
        assert forall|i: int| 0 <= i < r.len() implies first < (#[trigger] r[i]).address by {
            assert(answered(first + 1, rest, r[i].address as int) is Some);
        }
        assert forall|i: int| 0 <= i < s.len() implies answered(
            first,
            inputs,
            (#[trigger] s[i]).address as int,
        ) == Some(s[i].position) by {
            if shift <= i {
                assert(s[i] == r[i - shift]);
            }
        }
        assert forall|i: int, j: int| 0 <= i < j < s.len() implies s[i].address
            < s[j].address by {
            assert(s[j] == r[j - shift]);
            if shift <= i {
                assert(s[i] == r[i - shift]);
            }
        }
        assert forall|a: int| (#[trigger] answered(first, inputs, a)) is Some implies exists|
            i: int,
        |
            0 <= i < s.len() && (#[trigger] s[i]).address == a by {
            if a == first {
                assert(s[0].address == a);
            } else {
                assert(answered(first + 1, rest, a) is Some);
                let i = choose|i: int| 0 <= i < r.len() && (#[trigger] r[i]).address == a;
                assert(s[i + shift] == r[i]);
            }
        }
    }
}

/// Applying an intent marks at most the entry that the intent names, and
/// moves no entry to another address.
proof fn lemma_dispatch_marks_its_target_only(d: Model)
    ensures
        d.dispatch().registry.len() == d.registry.len(),
        forall|i: int|
            0 <= i < d.registry.len() ==> (#[trigger] d.dispatch().registry[i]).address
                == d.registry[i].address,
        forall|i: int|
            0 <= i < d.registry.len() ==> (#[trigger] d.dispatch().registry[i]) == d.registry[i]
                || aims_at(issued(d.dispatch()), d.registry[i].address),
        d.begin_dispatch().registry.len() == d.registry.len(),
        forall|i: int|
            0 <= i < d.registry.len() ==> (#[trigger] d.begin_dispatch().registry[i]).address
                == d.registry[i].address,
        forall|i: int|
            0 <= i < d.registry.len() ==> (#[trigger] d.begin_dispatch().registry[i])
                == d.registry[i] || aims_at(issued(d.begin_dispatch()), d.registry[i].address),
{
}

/// What a scan that no link failure interrupts leaves behind.
proof fn lemma_scan_outcome(m: Model, inputs: Seq<Input>)
    requires
        m.wf(),
        m.pending == (Action::Probe { address: FIRST_ADDRESS }),
        inputs.len() == LAST_ADDRESS - FIRST_ADDRESS + 1,
        replies_without_link_failure(inputs),
    ensures
        run(m, inputs).wf(),
        run(m, inputs).connected,
        forall|a: u8|
            holds(run(m, inputs).registry, a) <==> answered(
                FIRST_ADDRESS as int,
                inputs,
                a as int,
            ) is Some,
        forall|i: int|
            0 <= i < run(m, inputs).registry.len() ==> {
                let e = #[trigger] run(m, inputs).registry[i];
                let seen = Sighting {
                    address: e.address,
                    position: answered(FIRST_ADDRESS as int, inputs, e.address as int)->Some_0,
                };
                e == m.placed(seen, time_of_last(inputs)) || aims_at(
                    issued(run(m, inputs)),
                    e.address,
                )
            },
{
    let first = FIRST_ADDRESS as int;
    let end = run(m, inputs);
    let t = time_of_last(inputs);
    let found = sightings(first, inputs);
    law_intents_are_applied_in_order(m, inputs);
    lemma_scan_completes(m, inputs);
    lemma_sightings_are_the_answers(first, inputs);
    assert(m.found.len() == 0) by {
        if m.found.len() > 0 {
            assert(FIRST_ADDRESS <= m.found[0].address < FIRST_ADDRESS);
        }
    }
    assert(m.found + found =~= found);
    let all = Model { found, ..m };
    lemma_installed_ascending(all, t);
    let done = Model { connected: true, registry: all.installed(t), found: Seq::empty(), ..all };
    lemma_dispatch_marks_its_target_only(done);
    assert(end.registry.len() == found.len());
    assert forall|i: int| 0 <= i < end.registry.len() implies {
        let e = #[trigger] end.registry[i];
        let seen = Sighting {
            address: e.address,
            position: answered(first, inputs, e.address as int)->Some_0,
        };
        &&& e.address == found[i].address
        &&& seen == found[i]
        &&& (e == m.placed(seen, t) || aims_at(issued(end), e.address))
    } by {
        assert(done.registry[i] == all.placed(found[i], t));
        assert(all.placed(found[i], t) == m.placed(found[i], t));
        assert(answered(first, inputs, found[i].address as int) == Some(found[i].position));
    }
    assert forall|a: u8| holds(end.registry, a) <==> answered(first, inputs, a as int)
        is Some by {
        if holds(end.registry, a) {
            let i = choose|i: int| 0 <= i < end.registry.len() && (#[trigger] end.registry[i]).address == a;
            assert(found[i].address == a);
        }
        if answered(first, inputs, a as int) is Some {
            let i = choose|i: int| 0 <= i < found.len() && (#[trigger] found[i]).address == a;
            assert(end.registry[i].address == a);
        }
    }
}

/// Discovery.  When the link has just been opened and every address of
/// the range has been probed without a failure of the link, the engine is
/// connected and the registry holds exactly the actuators that answered with
/// a position.  Each of them is asked to stay where it is and has its torque
/// taken to be off, whatever an earlier connection had left in the registry.
/// The one exception is the entry that the first waiting intent names: that
/// intent is applied in the same step.
pub proof fn law_discovery_registers_the_responders(m: Model, inputs: Seq<Input>)
    requires
        m.wf(),
        !m.connected,
        m.pending == (Action::Probe { address: FIRST_ADDRESS }),
        inputs.len() == LAST_ADDRESS - FIRST_ADDRESS + 1,
        replies_without_link_failure(inputs),
    ensures
        run(m, inputs).wf(),
        run(m, inputs).connected,
        forall|a: u8|
            holds(run(m, inputs).registry, a) <==> answered(
                FIRST_ADDRESS as int,
                inputs,
                a as int,
            ) is Some,
        forall|i: int|
            0 <= i < run(m, inputs).registry.len() ==> {
                let e = #[trigger] run(m, inputs).registry[i];
                aims_at(issued(run(m, inputs)), e.address) || {
                    &&& e == ActuatorState::fresh(
                        e.address,
                        answered(FIRST_ADDRESS as int, inputs, e.address as int)->Some_0,
                        time_of_last(inputs),
                    )
                    &&& e.commanded_position == e.measured_position
                    &&& !e.torque_engaged
                }
            },
{
    lemma_scan_outcome(m, inputs);
}

/// Rescan.  When a connected engine has probed every address of the range
/// again without a failure of the link, the registry holds exactly the
/// actuators that answered with a position.  An actuator that was known
/// before keeps its entry untouched, commanded position and torque flag
/// included; a new one starts fresh.  So a rescan that finds the actuators
/// that were known changes nothing.  The one exception is the entry that the
/// next waiting intent names: that intent is applied in the same step.
pub proof fn law_rescan_keeps_what_is_known(m: Model, inputs: Seq<Input>)
    requires
        m.wf(),
        m.connected,
        m.pending == (Action::Probe { address: FIRST_ADDRESS }),
        inputs.len() == LAST_ADDRESS - FIRST_ADDRESS + 1,
        replies_without_link_failure(inputs),
    ensures
        run(m, inputs).wf(),
        run(m, inputs).connected,
        forall|a: u8|
            holds(run(m, inputs).registry, a) <==> answered(
                FIRST_ADDRESS as int,
                inputs,
                a as int,
            ) is Some,
        forall|i: int|
            0 <= i < run(m, inputs).registry.len() ==> {
                let e = #[trigger] run(m, inputs).registry[i];
                aims_at(issued(run(m, inputs)), e.address) || e == if holds(
                    m.registry,
                    e.address,
                ) {
                    entry(m.registry, e.address)
                } else {
                    ActuatorState::fresh(
                        e.address,
                        answered(FIRST_ADDRESS as int, inputs, e.address as int)->Some_0,
                        time_of_last(inputs),
                    )
                }
            },
        (forall|a: u8|
            holds(m.registry, a) <==> answered(FIRST_ADDRESS as int, inputs, a as int) is Some)
            && !(issued(run(m, inputs)) is Some && issued(run(m, inputs)) != Some(Intent::Rescan))
            ==> run(m, inputs).registry == m.registry,
{
    lemma_scan_outcome(m, inputs);
    let end = run(m, inputs);
    if (forall|a: u8|
        holds(m.registry, a) <==> answered(FIRST_ADDRESS as int, inputs, a as int) is Some) && !(
    issued(end) is Some && issued(end) != Some(Intent::Rescan)) {
        lemma_same_addresses_same_places(end.registry, m.registry);
        assert forall|i: int| 0 <= i < m.registry.len() implies end.registry[i]
            == m.registry[i] by {
            lemma_entry_is_unique(m.registry, i);
        }
        assert(end.registry =~= m.registry);
    }
}

/// Only the completion of a scan changes which addresses the registry
/// holds.  No reading, no write, no loss of the link and no intent that is
/// sent adds or removes an entry; in particular an actuator that stops
/// answering stays in the registry until a scan has run without it.
pub proof fn law_only_a_scan_changes_the_addresses(m: Model, reply: Reply, now: u64)
    requires
        m.wf(),
        !(m.pending is Probe),
    ensures
        same_addresses(m.step(reply, now).registry, m.registry),
{
}

} // verus!
