//! The executable engine.
//!
//! A worker loop drives it: it performs the request that [`Engine::step`]
//! returned, classifies the outcome as a [`Reply`], and hands that reply to
//! the next call of `step`.  The control surface calls [`Engine::send`],
//! [`Engine::snapshot`] and [`Engine::connection_status`].  No call waits
//! for the hardware, so a lock around the engine is only ever held for a
//! moment.

use crate::intent::{Fault, Intent};
use crate::link::{Action, FieldKind, Reply, FIRST_ADDRESS, LAST_ADDRESS};
use crate::model::{lemma_placed_keeps_address, lemma_step_keeps_wf, Model, Sighting};
use crate::queue::CommandQueue;
use crate::registry::{ascending, lemma_upsert_above_appends, ActuatorRegistry, ActuatorState};
use crate::schedule::{next_cycle, next_scheduled};
use vstd::prelude::*;

verus! {

/// The two timings of the engine, in milliseconds.
#[derive(Clone, Copy, Debug, PartialEq, Eq)]
pub struct Config {
    /// Pause between two poll cycles.
    pub cadence_ms: u64,
    /// Least delay between a failure of the link and the next attempt to
    /// open it.
    pub cooldown_ms: u64,
}

/// What the control surface is told about the link.
#[derive(Clone, Copy, Debug, PartialEq, Eq)]
pub enum ConnectionState {
    /// No discovery scan has succeeded on the present connection, or there
    /// is no connection.
    Disconnected,
    /// The link is open and the registry holds the actuators of the last
    /// scan.
    Connected,
}

/// The synchronisation engine.
pub struct Engine {
    config: Config,
    connected: bool,
    registry: ActuatorRegistry,
    queue: CommandQueue,
    batch: Vec<Intent>,
    cursor: usize,
    found: Vec<Sighting>,
    slot: usize,
    cycle: u32,
    retry_at: u64,
    pending: Action,
}

impl View for Engine {
    type V = Model;

    closed spec fn view(&self) -> Model {
        Model {
            cadence_ms: self.config.cadence_ms,
            cooldown_ms: self.config.cooldown_ms,
            connected: self.connected,
            registry: self.registry@,
            queue: self.queue@,
            batch: self.batch@,
            cursor: self.cursor as int,
            found: self.found@,
            slot: self.slot as int,
            cycle: self.cycle,
            retry_at: self.retry_at,
            pending: self.pending,
        }
    }
}

impl Engine {
    /// Holds of every engine that [`Engine::new`] made, whatever was done
    /// with it since.
    pub open spec fn wf(&self) -> bool {
        self@.wf()
    }

    /// A disconnected engine that knows no actuator.  Its first step asks
    /// for the link to be opened.
    pub fn new(config: Config) -> (e: Engine)
        ensures
            e@ == Model::initial(config.cadence_ms, config.cooldown_ms),
            e.wf(),
    {
        Engine {
            config,
            connected: false,
            registry: ActuatorRegistry::new(),
            queue: CommandQueue::new(),
            batch: Vec::new(),
            cursor: 0,
            found: Vec::new(),
            slot: 0,
            cycle: 0,
            retry_at: 0,
            pending: Action::Sleep { millis: 0 },
        }
    }

    /// Enqueues `intent` behind every intent sent before.  Never fails and
    /// never waits for the hardware.
    pub fn send(&mut self, intent: Intent)
        ensures
            final(self)@ == old(self)@.send(intent),
            old(self).wf() ==> final(self).wf(),
    {
        self.queue.send(intent);
    }

    /// Checks `intent` and enqueues it if it is well formed.  An intent that
    /// is not is turned away here and never reaches the link.
    pub fn submit(&mut self, intent: Intent) -> (r: Result<(), Fault>)
        ensures
            intent.well_formed() ==> r == Ok::<(), Fault>(()) && final(self)@ == old(self)@.send(
                intent,
            ),
            !intent.well_formed() ==> r == Err::<(), Fault>(Fault::MalformedInput) && final(self)@
                == old(self)@,
            old(self).wf() ==> final(self).wf(),
    {
        match intent.validate() {
            Ok(()) => {
                self.queue.send(intent);
                Ok(())
            },
            Err(fault) => Err(fault),
        }
    }

    /// The registry as it is at this moment: one entry for each actuator,
    /// in ascending order of address.
    pub fn snapshot(&self) -> (out: Vec<ActuatorState>)
        ensures
            out@ == self@.registry,
            self.wf() ==> ascending(out@),
    {
        self.registry.snapshot()
    }

    /// Whether the engine is connected.
    pub fn connection_status(&self) -> (s: ConnectionState)
        ensures
            s == if self@.connected {
                ConnectionState::Connected
            } else {
                ConnectionState::Disconnected
            },
    {
        if self.connected {
            ConnectionState::Connected
        } else {
            ConnectionState::Disconnected
        }
    }

    /// The address of the one actuator in the registry, where there is
    /// exactly one.  Only then may an address be reassigned on the bus.
    pub fn sole_address(&self) -> (r: Option<u8>)
        ensures
            r == if self@.registry.len() == 1 {
                Some(self@.registry[0].address)
            } else {
                None
            },
    {
        if self.registry.len() == 1 {
            match self.registry.entry_at(0) {
                Some(e) => Some(e.address),
                None => None,
            }
        } else {
            None
        }
    }

    /// Whether the engine is between two cycles: the pending request is a
    /// pause, so no request to the link is under way.  A worker loop that is
    /// asked to stop does so only here.
    pub fn between_cycles(&self) -> (b: bool)
        ensures
            b == (self@.pending is Sleep),
    {
        match self.pending {
            Action::Sleep { .. } => true,
            _ => false,
        }
    }

    /// The request that was handed out last.
    pub fn pending(&self) -> (a: Action)
        ensures
            a == self@.pending,
    {
        self.pending
    }

    /// The intents that were sent and are not applied yet, oldest first.
    pub fn waiting(&self) -> (out: Vec<Intent>)
        requires
            self.wf(),
        ensures
            out@ == self@.waiting(),
    {
        let mut out: Vec<Intent> = Vec::new();
        let mut i: usize = self.cursor;
        while i < self.batch.len()
            invariant
                self.cursor <= i <= self.batch.len(),
                out@ == self.batch@.subrange(self.cursor as int, i as int),
            decreases self.batch.len() - i,
        {
            out.push(self.batch[i]);
            assert(self.batch@.subrange(self.cursor as int, i + 1) =~= self.batch@.subrange(
                self.cursor as int,
                i as int,
            ).push(self.batch@[i as int]));
            i += 1;
        }
        assert(out@ =~= self.batch@.skip(self.cursor as int));
        let queued = self.queue.peek_all();
        let mut j: usize = 0;
        while j < queued.len()
            invariant
                j <= queued.len(),
                out@ == self.batch@.skip(self.cursor as int) + queued@.take(j as int),
            decreases queued.len() - j,
        {
            out.push(queued[j]);
            assert(queued@.take(j + 1) =~= queued@.take(j as int).push(queued@[j as int]));
            assert(out@ =~= self.batch@.skip(self.cursor as int) + queued@.take(j + 1));
            j += 1;
        }
        assert(queued@.take(j as int) =~= queued@);
        out
    }

    /// Takes in the reply to the pending request, which arrived at time
    /// `now` (milliseconds on any clock that does not run backwards), and
    /// returns the request to perform next.
    pub fn step(&mut self, reply: Reply, now: u64) -> (action: Action)
        requires
            old(self).wf(),
        ensures
            final(self)@ == old(self)@.step(reply, now),
            action == final(self)@.pending,
            final(self).wf(),
    {
        proof {
            lemma_step_keeps_wf(self@, reply, now);
        }
        match self.pending {
            Action::Open => {
                if reply.carried_out() {
                    self.begin_scan();
                } else {
                    self.go_down(now);
                }
            },
            Action::Probe { address } => {
                if reply.link_failed() {
                    self.go_down(now);
                } else {
                    if let Reply::Value(position) = reply {
                        self.found.push(Sighting { address, position });
                    }
                    if address < LAST_ADDRESS {
                        self.pending = Action::Probe { address: address + 1 };
                    } else {
                        self.finish_scan(now);
                    }
                }
            },
            Action::WriteMove { .. } => {
                if reply.link_failed() {
                    self.go_down(now);
                } else {
                    self.dispatch();
                }
            },
            Action::WriteTorque { .. } => {
                if reply.link_failed() {
                    self.go_down(now);
                } else {
                    self.dispatch();
                }
            },
            Action::Read { address, field } => {
                if reply.link_failed() {
                    self.go_down(now);
                } else {
                    if let Reply::Value(value) = reply {
                        self.registry.update_field(address, field, value, now);
                    }
                    self.after_read(address, field);
                }
            },
            Action::Notify => {
                self.cycle = next_cycle(self.cycle);
                self.pending = Action::Sleep { millis: self.config.cadence_ms };
            },
            Action::Sleep { .. } => {
                if self.connected {
                    self.begin_dispatch();
                } else if now >= self.retry_at {
                    self.pending = Action::Open;
                } else {
                    self.pending = Action::Sleep { millis: self.retry_at - now };
                }
            },
        }
        self.pending
    }

    fn go_down(&mut self, now: u64)
        ensures
            final(self)@ == old(self)@.go_down(now),
    {
        self.connected = false;
        self.found = Vec::new();
        self.retry_at = now.saturating_add(self.config.cooldown_ms);
        self.pending = Action::Sleep { millis: self.config.cooldown_ms };
    }

    fn begin_scan(&mut self)
        ensures
            final(self)@ == old(self)@.begin_scan(),
    {
        self.found = Vec::new();
        self.pending = Action::Probe { address: FIRST_ADDRESS };
    }

    fn poll_from(&mut self, slot: usize)
        ensures
            final(self)@ == old(self)@.poll_from(slot as int),
    {
        match self.registry.entry_at(slot) {
            Some(e) => {
                self.slot = slot;
                self.pending = Action::Read { address: e.address, field: FieldKind::Position };
            },
            None => {
                self.pending = Action::Notify;
            },
        }
    }

    fn after_read(&mut self, address: u8, field: FieldKind)
        requires
            old(self).pending == (Action::Read { address, field }),
        ensures
            final(self)@ == old(self)@.after_read(),
    {
        match next_scheduled(field, self.cycle) {
            Some(f) => {
                self.pending = Action::Read { address, field: f };
            },
            None => {
                if self.slot < self.registry.len() {
                    self.poll_from(self.slot + 1);
                } else {
                    self.pending = Action::Notify;
                }
            },
        }
    }

    fn dispatch(&mut self)
        ensures
            final(self)@ == old(self)@.dispatch(),
    {
        if self.cursor < self.batch.len() {
            let intent = self.batch[self.cursor];
            self.cursor = self.cursor + 1;
            match intent {
                Intent::Move { address, position, speed, acceleration } => {
                    self.registry.set_commanded(address, position);
                    self.pending = Action::WriteMove { address, position, speed, acceleration };
                },
                Intent::SetTorque { address, enabled } => {
                    self.registry.set_torque(address, enabled);
                    self.pending = Action::WriteTorque { address, enabled };
                },
                Intent::Rescan => {
                    self.begin_scan();
                },
            }
        } else {
            self.poll_from(0);
        }
    }

    fn begin_dispatch(&mut self)
        ensures
            final(self)@ == old(self)@.begin_dispatch(),
    {
        if self.cursor >= self.batch.len() {
            self.batch = self.queue.try_drain_all();
            self.cursor = 0;
        }
        self.dispatch();
    }

    fn finish_scan(&mut self, now: u64)
        requires
            old(self)@.wf_scan(),
        ensures
            final(self)@ == old(self)@.finish_scan(now),
    {
        let ghost before = self@;
        let mut next = ActuatorRegistry::new();
        let mut i: usize = 0;
        while i < self.found.len()
            invariant
                self@ == before,
                before.wf_scan(),
                self.registry.wf(),
                i <= self.found.len(),
                next.wf(),
                next@ == before.installed(now).take(i as int),
            decreases self.found.len() - i,
        {
            let seen = self.found[i];
            let known = if self.connected {
                self.registry.get(seen.address)
            } else {
                None
            };
            let state = match known {
                Some(e) => e,
                None => ActuatorState::discovered(seen.address, seen.position, now),
            };
            proof {
                assert(state == before.placed(seen, now));
                assert forall|j: int| 0 <= j < next@.len() implies next@[j].address
                    < state.address by {
                    lemma_placed_keeps_address(before, before.found[j], now);
                    lemma_placed_keeps_address(before, seen, now);
                }
                lemma_upsert_above_appends(next@, state);
                assert(before.installed(now).take(i + 1) =~= before.installed(now).take(
                    i as int,
                ).push(state));
            }
            next.upsert(state);
            i += 1;
        }
        assert(before.installed(now).take(i as int) =~= before.installed(now));
        let was_connected = self.connected;
        self.registry = next;
        self.connected = true;
        self.found = Vec::new();
        if was_connected {
            self.dispatch();
        } else {
            self.begin_dispatch();
        }
    }
}

} // verus!
