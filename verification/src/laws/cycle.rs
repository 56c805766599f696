//! One whole poll cycle, from the end of one pause to the start of the
//! next.

use crate::intent::Intent;
use crate::laws::order::{write_for, writes_for};
use crate::laws::polling::{
    end_of_cycle, lemma_cycle_ends, lemma_first_reading_heads_the_plan,
    lemma_polling_follows_the_plan, lemma_rest_has_no_link_failure, plan,
};
use crate::laws::runs::{replies_without_link_failure, requests, run, Input};
use crate::link::Action;
use crate::model::{lemma_dispatch_keeps_wf, Model};
use crate::registry::{same_addresses, ActuatorState};
use crate::schedule::cycle_after;
use vstd::prelude::*;

verus! {

/// No intent of `intents` is a rescan.
pub open spec fn without_rescan(intents: Seq<Intent>) -> bool {
    forall|i: int| 0 <= i < intents.len() ==> !(#[trigger] intents[i] is Rescan)
}

/// From the application of the next intent on, a cycle hands out the
/// writes of the rest of its batch, then its readings, then its end.
proof fn lemma_cycle_follows_the_batch(
    d: Model,
    registry: Seq<ActuatorState>,
    inputs: Seq<Input>,
)
    requires
        d.wf_core(),
        d.connected,
        same_addresses(d.registry, registry),
        without_rescan(d.batch.skip(d.cursor)),
        replies_without_link_failure(inputs),
        inputs.len() + 1 == (d.batch.len() - d.cursor) + plan(registry, d.cycle).len() + 2,
    ensures
        seq![d.dispatch().pending] + requests(d.dispatch(), inputs) == writes_for(
            d.batch.skip(d.cursor),
        ) + plan(registry, d.cycle) + end_of_cycle(d.cadence_ms),
        ({
            let last = run(d.dispatch(), inputs);
            &&& last.wf()
            &&& last.connected
            &&& last.pending == (Action::Sleep { millis: d.cadence_ms })
            &&& last.cycle == cycle_after(d.cycle)
            &&& same_addresses(last.registry, registry)
            &&& last.batch == d.batch
            &&& last.cursor == d.batch.len()
            &&& last.queue == d.queue
        }),
    decreases inputs.len(),
{
    let n = d.dispatch();
    lemma_dispatch_keeps_wf(d);
    let left = d.batch.skip(d.cursor);
    let readings = plan(registry, d.cycle);
    let tail = end_of_cycle(d.cadence_ms);
    if d.cursor < d.batch.len() {
        assert(left[0] == d.batch[d.cursor]);
        assert(!(left[0] is Rescan));
        assert(left.skip(1) =~= d.batch.skip(d.cursor + 1));
        assert(write_for(left[0]) == Some(n.pending));
        lemma_rest_has_no_link_failure(inputs);
        let rest = inputs.skip(1);
        assert(n.step(inputs[0]->Step_0, inputs[0]->Step_1) == n.dispatch());
        assert(without_rescan(n.batch.skip(n.cursor))) by {
            assert forall|i: int| 0 <= i < n.batch.skip(n.cursor).len() implies !(
            #[trigger] n.batch.skip(n.cursor)[i] is Rescan) by {
                assert(n.batch.skip(n.cursor)[i] == left[i + 1]);
            }
        }
        lemma_cycle_follows_the_batch(n, registry, rest);
        assert(requests(n, inputs) =~= seq![n.dispatch().pending] + requests(n.dispatch(), rest));
        assert(seq![n.pending] + requests(n, inputs) =~= writes_for(left) + readings + tail);
    } else {
        assert(left =~= Seq::<Intent>::empty());
        assert(writes_for(left) =~= Seq::<Action>::empty());
        if registry.len() > 0 {
            lemma_first_reading_heads_the_plan(registry, d.cycle);
            lemma_polling_follows_the_plan(n, registry, d.cycle, 0, 0, inputs);
            assert(seq![n.pending] + requests(n, inputs) =~= writes_for(left) + readings + tail);
        } else {
            assert(readings =~= Seq::<Action>::empty());
            lemma_rest_has_no_link_failure(inputs);
            lemma_cycle_ends(n, inputs);
            assert(seq![n.pending] + requests(n, inputs) =~= writes_for(left) + readings + tail);
        }
    }
}

/// The order of a cycle.  When a connected engine wakes from its pause
/// with its last batch used up, and the link holds, the cycle hands out, in
/// this order: the write of every intent that waits, oldest first; every
/// reading that the schedule gives to the cycle, actuator by actuator; the
/// notification of the surface; and the pause for the cadence.  Then the
/// next cycle has its number, and nothing waits.  (A rescan among the
/// intents puts its probes in the place of a write; this law leaves such
/// cycles out.)
pub proof fn law_cycle_runs_in_order(m: Model, inputs: Seq<Input>)
    requires
        m.wf(),
        m.connected,
        m.pending is Sleep,
        m.cursor == m.batch.len(),
        without_rescan(m.queue),
        replies_without_link_failure(inputs),
        inputs.len() == m.queue.len() + plan(m.registry, m.cycle).len() + 2,
    ensures
        requests(m, inputs) == writes_for(m.queue) + plan(m.registry, m.cycle) + end_of_cycle(
            m.cadence_ms,
        ),
        run(m, inputs).wf(),
        run(m, inputs).connected,
        run(m, inputs).pending == (Action::Sleep { millis: m.cadence_ms }),
        run(m, inputs).cycle == cycle_after(m.cycle),
        run(m, inputs).waiting() == Seq::<Intent>::empty(),
        same_addresses(run(m, inputs).registry, m.registry),
{
    lemma_rest_has_no_link_failure(inputs);
    let drained = Model { batch: m.queue, queue: Seq::empty(), cursor: 0, ..m };
    assert(m.step(inputs[0]->Step_0, inputs[0]->Step_1) == drained.dispatch());
    assert(drained.batch.skip(0) =~= m.queue);
    lemma_cycle_follows_the_batch(drained, m.registry, inputs.skip(1));
    let last = run(m, inputs);
    assert(last.waiting() =~= Seq::<Intent>::empty());
}

} // verus!
