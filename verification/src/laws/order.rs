//! The order in which intents reach the link.

use crate::intent::Intent;
use crate::laws::runs::{feed, requests, run, sent, Input};
use crate::link::{Action, Reply, FIRST_ADDRESS};
use crate::model::{lemma_step_keeps_wf, Model};
use vstd::prelude::*;

verus! {

/// The intent that the pending request of `m` carries out, if it carries
/// out one: a write is the move or the torque change it was made for, and
/// the first probe of a scan on a connected engine is a rescan.
pub open spec fn issued(m: Model) -> Option<Intent> {
    match m.pending {
        Action::WriteMove { address, position, speed, acceleration } => Some(
            Intent::Move { address, position, speed, acceleration },
        ),
        Action::WriteTorque { address, enabled } => Some(Intent::SetTorque { address, enabled }),
        Action::Probe { address } => if address == FIRST_ADDRESS && m.connected {
            Some(Intent::Rescan)
        } else {
            None
        },
        _ => None,
    }
}

/// The intents whose requests the engine hands out while it is fed `inputs`
/// from state `m`, in the order of those requests.
pub open spec fn applied(m: Model, inputs: Seq<Input>) -> Seq<Intent>
    decreases inputs.len(),
{
    if inputs.len() == 0 {
        Seq::empty()
    } else {
        let next = feed(m, inputs[0]);
        match (inputs[0], issued(next)) {
            (Input::Step(..), Some(intent)) => seq![intent] + applied(next, inputs.skip(1)),
            _ => applied(next, inputs.skip(1)),
        }
    }
}

/// Sending keeps the state well formed and puts the intent behind all that
/// wait.
pub proof fn lemma_send_joins_the_end(m: Model, intent: Intent)
    requires
        m.wf(),
    ensures
        m.send(intent).wf(),
        m.send(intent).waiting() == m.waiting().push(intent),
{
    assert(m.send(intent).waiting() =~= m.waiting().push(intent));
}

/// A step applies at most one intent, and only the one that has waited
/// longest.
pub proof fn lemma_step_takes_the_oldest(m: Model, reply: Reply, now: u64)
    requires
        m.wf(),
    ensures
        m.step(reply, now).wf(),
        match issued(m.step(reply, now)) {
            Some(intent) => {
                &&& m.waiting().len() > 0
                &&& m.waiting()[0] == intent
                &&& m.step(reply, now).waiting() == m.waiting().skip(1)
            },
            None => m.step(reply, now).waiting() == m.waiting(),
        },
{
    lemma_step_keeps_wf(m, reply, now);
    let n = m.step(reply, now);
    match issued(n) {
        Some(intent) => {
            assert(m.waiting().len() > 0);
            assert(m.waiting()[0] == intent);
            assert(n.waiting() =~= m.waiting().skip(1));
        },
        None => {
            assert(n.waiting() =~= m.waiting());
        },
    }
}

/// First in, first out.  Whatever the surface sends and whatever the link
/// replies, the engine hands out the requests for the intents in exactly
/// the order in which the intents were sent: the intents that waited at the
/// start, followed by those sent during the run, are those applied during
/// the run, followed by those that still wait.  None is lost, none is
/// applied twice, none overtakes another.
pub proof fn law_intents_are_applied_in_order(m: Model, inputs: Seq<Input>)
    requires
        m.wf(),
    ensures
        run(m, inputs).wf(),
        m.waiting() + sent(inputs) == applied(m, inputs) + run(m, inputs).waiting(),
    decreases inputs.len(),
{
    if inputs.len() == 0 {
        assert(m.waiting() + sent(inputs) =~= applied(m, inputs) + run(m, inputs).waiting());
    } else {
        let next = feed(m, inputs[0]);
        let rest = inputs.skip(1);
        let last = run(next, rest);
        match inputs[0] {
            Input::Send(intent) => {
                lemma_send_joins_the_end(m, intent);
                law_intents_are_applied_in_order(next, rest);
                assert(m.waiting() + (seq![intent] + sent(rest)) =~= m.waiting().push(intent)
                    + sent(rest));
            },
            Input::Step(reply, now) => {
                lemma_step_takes_the_oldest(m, reply, now);
                law_intents_are_applied_in_order(next, rest);
                match issued(next) {
                    Some(intent) => {
                        assert(m.waiting() =~= seq![intent] + next.waiting());
                        assert((seq![intent] + next.waiting()) + sent(rest) =~= seq![intent] + (
                        next.waiting() + sent(rest)));
                        assert(seq![intent] + (applied(next, rest) + last.waiting()) =~= (
                        seq![intent] + applied(next, rest)) + last.waiting());
                    },
                    None => {},
                }
            },
        }
    }
}

/// The write that carries out `intent`.  A rescan is carried out by probes,
/// not by a write.
pub open spec fn write_for(intent: Intent) -> Option<Action> {
    match intent {
        Intent::Move { address, position, speed, acceleration } => Some(
            Action::WriteMove { address, position, speed, acceleration },
        ),
        Intent::SetTorque { address, enabled } => Some(Action::WriteTorque { address, enabled }),
        Intent::Rescan => None,
    }
}

/// The writes that carry out `intents`, in the order of the intents.
pub open spec fn writes_for(intents: Seq<Intent>) -> Seq<Action>
    decreases intents.len(),
{
    if intents.len() == 0 {
        Seq::empty()
    } else {
        match write_for(intents[0]) {
            Some(write) => seq![write] + writes_for(intents.skip(1)),
            None => writes_for(intents.skip(1)),
        }
    }
}

/// The writes among `actions`, in their order.
pub open spec fn writes_among(actions: Seq<Action>) -> Seq<Action>
    decreases actions.len(),
{
    if actions.len() == 0 {
        Seq::empty()
    } else if actions[0] is WriteMove || actions[0] is WriteTorque {
        seq![actions[0]] + writes_among(actions.skip(1))
    } else {
        writes_among(actions.skip(1))
    }
}

/// What reaches the link.  The writes that the engine hands out during a
/// run are, one for one and in the same order, the writes of the intents
/// that it applies during that run; and those intents are, by
/// [`law_intents_are_applied_in_order`], the oldest that were sent.  So the
/// link sees the moves and the torque changes in the order in which the
/// surface sent them.
pub proof fn law_writes_reach_the_link_in_order(m: Model, inputs: Seq<Input>)
    requires
        m.wf(),
    ensures
        writes_among(requests(m, inputs)) == writes_for(applied(m, inputs)),
    decreases inputs.len(),
{
    if inputs.len() > 0 {
        let next = feed(m, inputs[0]);
        let rest = inputs.skip(1);
        match inputs[0] {
            Input::Send(intent) => {
                lemma_send_joins_the_end(m, intent);
                law_writes_reach_the_link_in_order(next, rest);
            },
            Input::Step(reply, now) => {
                lemma_step_keeps_wf(m, reply, now);
                law_writes_reach_the_link_in_order(next, rest);
                let handed = seq![next.pending] + requests(next, rest);
                assert(handed[0] == next.pending);
                assert(handed.skip(1) =~= requests(next, rest));
                match issued(next) {
                    Some(intent) => {
                        let taken = seq![intent] + applied(next, rest);
                        assert(taken[0] == intent);
                        assert(taken.skip(1) =~= applied(next, rest));
                    },
                    None => {},
                }
            },
        }
    }
}

} // verus!
