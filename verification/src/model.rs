//! The engine as a state machine over mathematical values.
//!
//! [`Model::step`] says, for every state and every reply, what the next
//! state is and which request comes next.  The executable engine is proved
//! to compute exactly this function, and the laws of the engine are proved
//! about it.

use crate::intent::Intent;
use crate::link::{retry_time, Action, FieldKind, Reply, FIRST_ADDRESS, LAST_ADDRESS};
use crate::registry::{
    ascending, commanded_at, entry, holds, refreshed_at, torqued_at, ActuatorState,
};
use crate::schedule::{cycle_after, next_field};
use vstd::prelude::*;

verus! {

/// An actuator that answered a probe, with the position it reported.
#[derive(Clone, Copy, Debug, PartialEq, Eq)]
pub struct Sighting {
    pub address: u8,
    pub position: u16,
}

/// Addresses grow strictly along the sequence.
pub open spec fn climbing(found: Seq<Sighting>) -> bool {
    forall|i: int, j: int| 0 <= i < j < found.len() ==> found[i].address < found[j].address
}

/// The whole state of the engine.
pub struct Model {
    /// Pause between two poll cycles, in milliseconds.
    pub cadence_ms: u64,
    /// Least delay between a failure of the link and the next attempt to
    /// open it, in milliseconds.
    pub cooldown_ms: u64,
    /// Whether a discovery scan has succeeded on the present connection.
    pub connected: bool,
    /// The registry, in ascending order of address.
    pub registry: Seq<ActuatorState>,
    /// Intents that were sent and not drained yet, oldest first.
    pub queue: Seq<Intent>,
    /// The intents drained last.
    pub batch: Seq<Intent>,
    /// How many intents of the batch have been applied.
    pub cursor: int,
    /// The actuators that have answered the scan under way.
    pub found: Seq<Sighting>,
    /// The place of the registry entry that is being polled.
    pub slot: int,
    /// The number of the poll cycle, which selects the fields to read.
    pub cycle: u32,
    /// No attempt to open the link is made before this time.
    pub retry_at: u64,
    /// The request that was handed out last; the next reply answers it.
    pub pending: Action,
}

impl Model {
    /// The state of a new engine: disconnected, with nothing known and
    /// nothing to wait for.
    pub open spec fn initial(cadence_ms: u64, cooldown_ms: u64) -> Model {
        Model {
            cadence_ms,
            cooldown_ms,
            connected: false,
            registry: Seq::empty(),
            queue: Seq::empty(),
            batch: Seq::empty(),
            cursor: 0,
            found: Seq::empty(),
            slot: 0,
            cycle: 0,
            retry_at: 0,
            pending: Action::Sleep { millis: 0 },
        }
    }

    /// What every reachable state satisfies.
    pub open spec fn wf(self) -> bool {
        &&& self.wf_core()
        &&& (self.pending matches Action::Probe { address } ==> {
            &&& FIRST_ADDRESS <= address <= LAST_ADDRESS
            &&& forall|i: int|
                0 <= i < self.found.len() ==> FIRST_ADDRESS <= (#[trigger] self.found[i]).address
                    < address
        })
        &&& (self.pending is WriteMove || self.pending is WriteTorque || self.pending is Read
            || self.pending is Notify ==> self.connected)
        &&& (self.pending is Open ==> !self.connected)
        &&& (self.pending is Read || self.pending is Notify ==> self.cursor == self.batch.len())
    }

    /// The part of [`Model::wf`] that does not depend on the pending request.
    pub open spec fn wf_core(self) -> bool {
        &&& ascending(self.registry)
        &&& 0 <= self.cursor <= self.batch.len()
        &&& 0 <= self.slot
        &&& climbing(self.found)
    }

    /// What the completion of a scan relies on.
    pub open spec fn wf_scan(self) -> bool {
        &&& ascending(self.registry)
        &&& climbing(self.found)
    }

    /// The intents that were sent and are not applied yet, oldest first.
    pub open spec fn waiting(self) -> Seq<Intent> {
        self.batch.skip(self.cursor) + self.queue
    }

    /// The state after the surface has sent `intent`.
    pub open spec fn send(self, intent: Intent) -> Model {
        Model { queue: self.queue.push(intent), ..self }
    }

    /// The link has failed at `now`, or could not be opened: the connection
    /// is given up and the cooldown starts.  The registry keeps what it
    /// knows; the intents that wait keep waiting.
    pub open spec fn go_down(self, now: u64) -> Model {
        Model {
            connected: false,
            found: Seq::empty(),
            retry_at: retry_time(now, self.cooldown_ms),
            pending: Action::Sleep { millis: self.cooldown_ms },
            ..self
        }
    }

    /// Starts a scan of the whole address range.
    pub open spec fn begin_scan(self) -> Model {
        Model {
            found: Seq::empty(),
            pending: Action::Probe { address: FIRST_ADDRESS },
            ..self
        }
    }

    /// The registry entry that a completed scan gives to one actuator that
    /// answered.  On a rescan an actuator that was known keeps its entry as
    /// it is; every other one starts fresh.
    pub open spec fn placed(self, seen: Sighting, now: u64) -> ActuatorState {
        if self.connected && holds(self.registry, seen.address) {
            entry(self.registry, seen.address)
        } else {
            ActuatorState::fresh(seen.address, seen.position, now)
        }
    }

    /// The registry after the scan under way has completed at `now`: one
    /// entry for each actuator that answered, and no other.
    pub open spec fn installed(self, now: u64) -> Seq<ActuatorState> {
        Seq::new(self.found.len(), |i: int| self.placed(self.found[i], now))
    }

    /// Starts reading the entry in place `slot`, or ends the cycle where
    /// the registry has no such entry.
    pub open spec fn poll_from(self, slot: int) -> Model {
        if 0 <= slot < self.registry.len() {
            Model {
                slot,
                pending: Action::Read {
                    address: self.registry[slot].address,
                    field: FieldKind::Position,
                },
                ..self
            }
        } else {
            Model { pending: Action::Notify, ..self }
        }
    }

    /// Goes on after a reading: to the next field of the same actuator that
    /// this cycle reads, else to the next actuator.
    pub open spec fn after_read(self) -> Model {
        match self.pending {
            Action::Read { address, field } => match next_field(field, self.cycle) {
                Some(f) => Model { pending: Action::Read { address, field: f }, ..self },
                None => self.poll_from(self.slot + 1),
            },
            _ => self,
        }
    }

    /// Applies the oldest intent of the batch, or starts polling where the
    /// batch is used up.  A move and a torque change mark the registry at
    /// once, before the write is even sent.
    pub open spec fn dispatch(self) -> Model {
        if 0 <= self.cursor < self.batch.len() {
            match self.batch[self.cursor] {
                Intent::Move { address, position, speed, acceleration } => Model {
                    registry: commanded_at(self.registry, address, position),
                    cursor: self.cursor + 1,
                    pending: Action::WriteMove { address, position, speed, acceleration },
                    ..self
                },
                Intent::SetTorque { address, enabled } => Model {
                    registry: torqued_at(self.registry, address, enabled),
                    cursor: self.cursor + 1,
                    pending: Action::WriteTorque { address, enabled },
                    ..self
                },
                Intent::Rescan => Model { cursor: self.cursor + 1, ..self }.begin_scan(),
            }
        } else {
            self.poll_from(0)
        }
    }

    /// Starts the command phase of a cycle: where the last batch is used
    /// up, everything that waits in the queue becomes the batch.
    pub open spec fn begin_dispatch(self) -> Model {
        if self.cursor >= self.batch.len() {
            Model { batch: self.queue, queue: Seq::empty(), cursor: 0, ..self }.dispatch()
        } else {
            self.dispatch()
        }
    }

    /// The scan has completed at `now`: the registry is replaced in one
    /// piece and the engine is connected.
    pub open spec fn finish_scan(self, now: u64) -> Model {
        let done = Model {
            connected: true,
            registry: self.installed(now),
            found: Seq::empty(),
            ..self
        };
        if self.connected {
            done.dispatch()
        } else {
            done.begin_dispatch()
        }
    }

    /// The state after `reply`, which arrived at `now`, has answered the
    /// pending request.  The request to perform next is the `pending` of the
    /// result.
    pub open spec fn step(self, reply: Reply, now: u64) -> Model {
        match self.pending {
            Action::Open => if reply.succeeded() {
                self.begin_scan()
            } else {
                self.go_down(now)
            },
            Action::Probe { address } => if reply.is_link_failure() {
                self.go_down(now)
            } else {
                let seen = match reply {
                    Reply::Value(position) => Model {
                        found: self.found.push(Sighting { address, position }),
                        ..self
                    },
                    _ => self,
                };
                if address < LAST_ADDRESS {
                    Model { pending: Action::Probe { address: (address + 1) as u8 }, ..seen }
                } else {
                    seen.finish_scan(now)
                }
            },
            Action::WriteMove { .. } => if reply.is_link_failure() {
                self.go_down(now)
            } else {
                self.dispatch()
            },
            Action::WriteTorque { .. } => if reply.is_link_failure() {
                self.go_down(now)
            } else {
                self.dispatch()
            },
            Action::Read { address, field } => if reply.is_link_failure() {
                self.go_down(now)
            } else {
                match reply {
                    Reply::Value(value) => Model {
                        registry: refreshed_at(self.registry, address, field, value, now),
                        ..self
                    },
                    _ => self,
                }.after_read()
            },
            Action::Notify => Model {
                cycle: cycle_after(self.cycle),
                pending: Action::Sleep { millis: self.cadence_ms },
                ..self
            },
            Action::Sleep { .. } => if self.connected {
                self.begin_dispatch()
            } else if now >= self.retry_at {
                Model { pending: Action::Open, ..self }
            } else {
                Model { pending: Action::Sleep { millis: (self.retry_at - now) as u64 }, ..self }
            },
        }
    }
}

/// A completed scan files every actuator under the address it answered
/// from.
pub proof fn lemma_placed_keeps_address(m: Model, seen: Sighting, now: u64)
    ensures
        m.placed(seen, now).address == seen.address,
{
}

/// A completed scan leaves the registry in ascending order, with one entry
/// for each actuator that answered.
pub proof fn lemma_installed_ascending(m: Model, now: u64)
    requires
        climbing(m.found),
    ensures
        ascending(m.installed(now)),
        m.installed(now).len() == m.found.len(),
        forall|i: int|
            0 <= i < m.found.len() ==> (#[trigger] m.installed(now)[i]).address
                == m.found[i].address,
{
    assert forall|i: int| 0 <= i < m.found.len() implies (#[trigger] m.installed(now)[i]).address
        == m.found[i].address by {
        lemma_placed_keeps_address(m, m.found[i], now);
    }
}

/// Starting to read an entry, or ending the cycle, keeps the state well
/// formed.
proof fn lemma_poll_from_keeps_wf(m: Model, slot: int)
    requires
        m.wf_core(),
        m.connected,
        m.cursor == m.batch.len(),
    ensures
        m.poll_from(slot).wf(),
{
}

/// Applying an intent, or starting to poll, keeps the state well formed.
pub proof fn lemma_dispatch_keeps_wf(m: Model)
    requires
        m.wf_core(),
        m.connected,
    ensures
        m.dispatch().wf(),
        m.begin_dispatch().wf(),
{
    if m.cursor >= m.batch.len() {
        lemma_poll_from_keeps_wf(m, 0);
        let drained = Model { batch: m.queue, queue: Seq::empty(), cursor: 0, ..m };
        if drained.batch.len() == 0 {
            lemma_poll_from_keeps_wf(drained, 0);
        }
    }
}

/// Completing a scan keeps the state well formed.
proof fn lemma_finish_scan_keeps_wf(m: Model, now: u64)
    requires
        m.wf_core(),
    ensures
        m.finish_scan(now).wf(),
{
    lemma_installed_ascending(m, now);
    let done = Model {
        connected: true,
        registry: m.installed(now),
        found: Seq::empty(),
        ..m
    };
    lemma_dispatch_keeps_wf(done);
}

/// Every step leads from a well-formed state to a well-formed state.
pub proof fn lemma_step_keeps_wf(m: Model, reply: Reply, now: u64)
    requires
        m.wf(),
    ensures
        m.step(reply, now).wf(),
{
    match m.pending {
        Action::Open => {},
        Action::Probe { address } => {
            if !reply.is_link_failure() {
                let seen = match reply {
                    Reply::Value(position) => Model {
                        found: m.found.push(Sighting { address, position }),
                        ..m
                    },
                    _ => m,
                };
                if address >= LAST_ADDRESS {
                    lemma_finish_scan_keeps_wf(seen, now);
                }
            }
        },
        Action::WriteMove { .. } => {
            lemma_dispatch_keeps_wf(m);
        },
        Action::WriteTorque { .. } => {
            lemma_dispatch_keeps_wf(m);
        },
        Action::Read { address, field } => {
            if !reply.is_link_failure() {
                let read = match reply {
                    Reply::Value(value) => Model {
                        registry: refreshed_at(m.registry, address, field, value, now),
                        ..m
                    },
                    _ => m,
                };
                lemma_poll_from_keeps_wf(read, read.slot + 1);
            }
        },
        Action::Notify => {},
        Action::Sleep { .. } => {
            if m.connected {
                lemma_dispatch_keeps_wf(m);
            }
        },
    }
}

/// A new engine is well formed.
pub proof fn lemma_initial_is_wf(cadence_ms: u64, cooldown_ms: u64)
    ensures
        Model::initial(cadence_ms, cooldown_ms).wf(),
{
}

} // verus!
