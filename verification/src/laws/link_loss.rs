//! Loss of the link, and the pause before it is opened again.

use crate::laws::runs::{feed, Input};
use crate::link::{retry_time, Action, Reply};
use crate::model::Model;
use vstd::prelude::*;

verus! {

/// Whether `reply` to the pending request of `m` makes the engine give the
/// connection up: a failure of the link during any request to it, or a
/// transport that cannot be opened.
pub open spec fn breaks_the_link(m: Model, reply: Reply) -> bool {
    match m.pending {
        Action::Open => !reply.succeeded(),
        Action::Probe { .. } => reply.is_link_failure(),
        Action::Read { .. } => reply.is_link_failure(),
        Action::WriteMove { .. } => reply.is_link_failure(),
        Action::WriteTorque { .. } => reply.is_link_failure(),
        Action::Notify => false,
        Action::Sleep { .. } => false,
    }
}

/// Loss of the link.  A failure of the link during any request disconnects
/// the engine and starts the cooldown.  The registry keeps every entry as
/// it was, and every intent that waits keeps its place.
pub proof fn law_link_failure_disconnects(m: Model, reply: Reply, now: u64)
    requires
        m.wf(),
        breaks_the_link(m, reply),
    ensures
        !m.step(reply, now).connected,
        m.step(reply, now).registry == m.registry,
        m.step(reply, now).waiting() == m.waiting(),
        m.step(reply, now).retry_at == retry_time(now, m.cooldown_ms),
        m.step(reply, now).pending == (Action::Sleep { millis: m.cooldown_ms }),
{
}

/// The time of the first reply in `inputs` after which the engine asks for
/// the link to be opened, if there is one.
pub open spec fn first_opening(m: Model, inputs: Seq<Input>) -> Option<u64>
    decreases inputs.len(),
{
    if inputs.len() == 0 {
        None
    } else {
        match inputs[0] {
            Input::Step(reply, now) => if m.step(reply, now).pending is Open {
                Some(now)
            } else {
                first_opening(m.step(reply, now), inputs.skip(1))
            },
            Input::Send(intent) => first_opening(m.send(intent), inputs.skip(1)),
        }
    }
}

/// While the engine is disconnected and sleeps, it asks for the link to be
/// opened no earlier than the time it has set for that.
pub proof fn lemma_sleeper_waits(m: Model, inputs: Seq<Input>)
    requires
        !m.connected,
        m.pending is Sleep,
    ensures
        first_opening(m, inputs) matches Some(t) ==> t >= m.retry_at,
    decreases inputs.len(),
{
    if inputs.len() > 0 {
        let next = feed(m, inputs[0]);
        if !(next.pending is Open) {
            lemma_sleeper_waits(next, inputs.skip(1));
        }
    }
}

/// No hot loop.  After the link was lost, or could not be opened, at time
/// `now`, the engine does not ask for it to be opened before the cooldown
/// has passed, whatever is sent to it and however often it is woken.
pub proof fn law_reopening_waits_for_the_cooldown(
    m: Model,
    reply: Reply,
    now: u64,
    inputs: Seq<Input>,
)
    requires
        m.wf(),
        breaks_the_link(m, reply),
    ensures
        first_opening(m.step(reply, now), inputs) matches Some(t) ==> t >= retry_time(
            now,
            m.cooldown_ms,
        ),
{
    lemma_sleeper_waits(m.step(reply, now), inputs);
}

/// The engine asks for the link to be opened only while it is disconnected,
/// and only when the time set for the next attempt has come.
pub proof fn law_opening_only_when_due(m: Model, reply: Reply, now: u64)
    requires
        m.wf(),
        m.step(reply, now).pending is Open,
    ensures
        !m.connected,
        now >= m.retry_at,
{
}

} // verus!
