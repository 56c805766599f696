//! Runs of the engine: what is fed to it, and what it hands out.

use crate::intent::Intent;
use crate::link::{Action, Reply};
use crate::model::{lemma_initial_is_wf, lemma_step_keeps_wf, Model};
use vstd::prelude::*;

verus! {

/// One thing that happens to the engine.
pub enum Input {
    /// The surface sends an intent.
    Send(Intent),
    /// The worker loop hands in a reply, at the given time.
    Step(Reply, u64),
}

/// The state after one input.
pub open spec fn feed(m: Model, input: Input) -> Model {
    match input {
        Input::Send(intent) => m.send(intent),
        Input::Step(reply, now) => m.step(reply, now),
    }
}

/// The state after all of `inputs`, in their order.
pub open spec fn run(m: Model, inputs: Seq<Input>) -> Model
    decreases inputs.len(),
{
    if inputs.len() == 0 {
        m
    } else {
        run(feed(m, inputs[0]), inputs.skip(1))
    }
}

/// The intents that `inputs` send, in their order.
pub open spec fn sent(inputs: Seq<Input>) -> Seq<Intent>
    decreases inputs.len(),
{
    if inputs.len() == 0 {
        Seq::empty()
    } else {
        match inputs[0] {
            Input::Send(intent) => seq![intent] + sent(inputs.skip(1)),
            Input::Step(..) => sent(inputs.skip(1)),
        }
    }
}

/// The requests that the engine hands out while it is fed `inputs` from
/// state `m`: one after each reply.
pub open spec fn requests(m: Model, inputs: Seq<Input>) -> Seq<Action>
    decreases inputs.len(),
{
    if inputs.len() == 0 {
        Seq::empty()
    } else {
        let next = feed(m, inputs[0]);
        match inputs[0] {
            Input::Step(..) => seq![next.pending] + requests(next, inputs.skip(1)),
            Input::Send(_) => requests(next, inputs.skip(1)),
        }
    }
}

/// Every input is a reply, and none of them reports a failure of the link.
pub open spec fn replies_without_link_failure(inputs: Seq<Input>) -> bool {
    forall|i: int|
        0 <= i < inputs.len() ==> (#[trigger] inputs[i] matches Input::Step(reply, _)
            && !reply.is_link_failure())
}

/// The time of the last input, where that is a reply.
pub open spec fn time_of_last(inputs: Seq<Input>) -> u64 {
    match inputs.last() {
        Input::Step(_, now) => now,
        Input::Send(_) => 0,
    }
}

/// Every state that an engine can reach is well formed: whatever is sent
/// to a new engine and whatever replies it is handed, at whatever times.
pub proof fn law_every_reachable_state_is_well_formed(
    cadence_ms: u64,
    cooldown_ms: u64,
    inputs: Seq<Input>,
)
    ensures
        run(Model::initial(cadence_ms, cooldown_ms), inputs).wf(),
{
    lemma_initial_is_wf(cadence_ms, cooldown_ms);
    lemma_run_keeps_wf(Model::initial(cadence_ms, cooldown_ms), inputs);
}

/// A run leads from a well-formed state to a well-formed state.
pub proof fn lemma_run_keeps_wf(m: Model, inputs: Seq<Input>)
    requires
        m.wf(),
    ensures
        run(m, inputs).wf(),
    decreases inputs.len(),
{
    if inputs.len() > 0 {
        match inputs[0] {
            Input::Send(_) => {},
            Input::Step(reply, now) => {
                lemma_step_keeps_wf(m, reply, now);
            },
        }
        lemma_run_keeps_wf(feed(m, inputs[0]), inputs.skip(1));
    }
}

} // verus!
