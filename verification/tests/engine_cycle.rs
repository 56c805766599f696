// The engine driven by a simulated link: connection, discovery, command
// dispatch, polling and recovery.

use servo_sync::engine::{Config, ConnectionState, Engine};
use servo_sync::intent::{Fault, Intent};
use servo_sync::link::FieldKind::{Current, Load, Position, Speed, Temperature, Voltage};
use servo_sync::link::{Action, FieldKind, Reply};
use servo_sync::registry::ActuatorState;

const CADENCE: u64 = 20;
const COOLDOWN: u64 = 1000;

/// A bus with some actuators on it, and the loop that a worker would run.
struct Rig {
    engine: Engine,
    /// Actuators on the bus, with the position each reports.
    present: Vec<(u8, u16)>,
    /// Addresses that answer probes but neither readings nor writes.
    mute: Vec<u8>,
    /// Whether the transport can be opened.
    can_open: bool,
    /// Whether every request to the link fails with a link failure.
    cut: bool,
    /// The clock, in milliseconds.  Every step takes one.
    now: u64,
    /// The reply to the last request.
    last: Reply,
    /// Every request the engine has handed out.
    log: Vec<Action>,
}

fn value_of(field: FieldKind, position: u16) -> u16 {
    match field {
        FieldKind::Position => position,
        FieldKind::Temperature => 31,
        FieldKind::Voltage => 74,
        FieldKind::Current => 12,
        FieldKind::Load => 250,
        FieldKind::Speed => 0,
    }
}

impl Rig {
    fn new(present: Vec<(u8, u16)>) -> Rig {
        Rig {
            engine: Engine::new(Config { cadence_ms: CADENCE, cooldown_ms: COOLDOWN }),
            present,
            mute: Vec::new(),
            can_open: true,
            cut: false,
            now: 0,
            last: Reply::Ack,
            log: Vec::new(),
        }
    }

    fn position_of(&self, address: u8) -> Option<u16> {
        self.present.iter().find(|(a, _)| *a == address).map(|(_, p)| *p)
    }

    fn answers(&self, address: u8) -> Option<u16> {
        if self.mute.contains(&address) {
            None
        } else {
            self.position_of(address)
        }
    }

    fn reply_to(&self, action: Action) -> Reply {
        let lost = Reply::Failed(Fault::LinkFailure);
        let absent = Reply::Failed(Fault::AddressAbsent);
        match action {
            Action::Open => {
                if self.can_open {
                    Reply::Ack
                } else {
                    lost
                }
            }
            Action::Notify => Reply::Ack,
            Action::Sleep { .. } => Reply::Ack,
            _ if self.cut => lost,
            Action::Probe { address } => match self.position_of(address) {
                Some(p) => Reply::Value(p),
                None => absent,
            },
            Action::Read { address, field } => match self.answers(address) {
                Some(p) => Reply::Value(value_of(field, p)),
                None => absent,
            },
            Action::WriteMove { address, .. } => match self.answers(address) {
                Some(_) => Reply::Ack,
                None => absent,
            },
            Action::WriteTorque { address, .. } => match self.answers(address) {
                Some(_) => Reply::Ack,
                None => absent,
            },
        }
    }

    /// One turn of the worker loop: hand in the last reply, perform the
    /// request that comes back.
    fn turn(&mut self) -> Action {
        let action = self.engine.step(self.last, self.now);
        self.log.push(action);
        self.last = self.reply_to(action);
        if let Action::Sleep { millis } = action {
            self.now += millis;
        } else {
            self.now += 1;
        }
        action
    }

    /// Turns until the engine asks to sleep; returns the requests of these
    /// turns, the sleep included.
    fn run_to_sleep(&mut self) -> Vec<Action> {
        let from = self.log.len();
        loop {
            if let Action::Sleep { .. } = self.turn() {
                break;
            }
        }
        self.log[from..].to_vec()
    }

    /// Turns until the engine asks for its first reading.
    fn run_to_first_reading(&mut self) -> Action {
        loop {
            let action = self.turn();
            if let Action::Read { .. } = action {
                return action;
            }
        }
    }

    fn entry(&self, address: u8) -> Option<ActuatorState> {
        self.engine.snapshot().into_iter().find(|e| e.address == address)
    }

    fn addresses(&self) -> Vec<u8> {
        self.engine.snapshot().iter().map(|e| e.address).collect()
    }
}

fn fresh(address: u8, position: u16, now: u64) -> ActuatorState {
    ActuatorState {
        address,
        measured_position: position,
        commanded_position: position,
        temperature: None,
        voltage: None,
        current: None,
        load: None,
        speed: None,
        torque_engaged: false,
        last_update: now,
    }
}

fn read(address: u8, field: FieldKind) -> Action {
    Action::Read { address, field }
}

fn writes_in(log: &[Action]) -> Vec<Action> {
    log.iter()
        .copied()
        .filter(|a| matches!(a, Action::WriteMove { .. } | Action::WriteTorque { .. }))
        .collect()
}

#[test]
fn new_engine_is_disconnected_and_asks_to_open() {
    let mut engine = Engine::new(Config { cadence_ms: CADENCE, cooldown_ms: COOLDOWN });
    assert_eq!(engine.connection_status(), ConnectionState::Disconnected);
    assert_eq!(engine.snapshot(), vec![]);
    assert_eq!(engine.pending(), Action::Sleep { millis: 0 });
    assert_eq!(engine.step(Reply::Ack, 0), Action::Open);
    assert_eq!(engine.pending(), Action::Open);
    assert_eq!(engine.connection_status(), ConnectionState::Disconnected);
}

#[test]
fn discovery_probes_the_whole_range_in_order() {
    let mut rig = Rig::new(vec![(3, 2048), (7, 2048)]);
    rig.run_to_first_reading();
    let mut expected = vec![Action::Open];
    for address in 1..=15u8 {
        expected.push(Action::Probe { address });
    }
    expected.push(read(3, FieldKind::Position));
    assert_eq!(rig.log, expected);
}

#[test]
fn engine_is_connected_only_when_the_scan_is_complete() {
    let mut rig = Rig::new(vec![(3, 2048)]);
    assert_eq!(rig.turn(), Action::Open);
    for address in 1..=15u8 {
        assert_eq!(rig.turn(), Action::Probe { address });
        assert_eq!(rig.engine.connection_status(), ConnectionState::Disconnected);
        assert_eq!(rig.engine.snapshot(), vec![]);
    }
    assert_eq!(rig.turn(), read(3, FieldKind::Position));
    assert_eq!(rig.engine.connection_status(), ConnectionState::Connected);
}

#[test]
fn discovery_registers_exactly_the_responders() {
    let mut rig = Rig::new(vec![(12, 77), (3, 2048), (7, 4095)]);
    rig.run_to_first_reading();
    // Open took time 0, the probes times 1 to 15; the last answer came at 16.
    assert_eq!(
        rig.engine.snapshot(),
        vec![fresh(3, 2048, 16), fresh(7, 4095, 16), fresh(12, 77, 16)]
    );
    for e in rig.engine.snapshot() {
        assert_eq!(e.commanded_position, e.measured_position);
        assert!(!e.torque_engaged);
    }
    assert_eq!(rig.engine.connection_status(), ConnectionState::Connected);
}

#[test]
fn discovery_of_an_empty_bus_connects_with_an_empty_registry() {
    let mut rig = Rig::new(vec![]);
    let log = rig.run_to_sleep();
    assert_eq!(rig.engine.connection_status(), ConnectionState::Connected);
    assert_eq!(rig.engine.snapshot(), vec![]);
    assert_eq!(log[log.len() - 2..], [Action::Notify, Action::Sleep { millis: CADENCE }]);
    assert_eq!(log.len(), 1 + 15 + 2);
}

#[test]
fn an_actuator_outside_the_range_is_not_discovered() {
    let mut rig = Rig::new(vec![(0, 10), (15, 20), (16, 30)]);
    rig.run_to_sleep();
    assert_eq!(rig.addresses(), vec![15]);
}

#[test]
fn scenario_torque_then_move() {
    let mut rig = Rig::new(vec![(3, 2048), (7, 2048)]);
    rig.run_to_first_reading();
    let found = rig.engine.snapshot();
    assert_eq!(found.len(), 2);
    for e in &found {
        assert_eq!(e.commanded_position, 2048);
        assert_eq!(e.measured_position, 2048);
        assert!(!e.torque_engaged);
    }
    rig.run_to_sleep();
    let seven_before = rig.entry(7).unwrap();

    rig.engine.send(Intent::SetTorque { address: 3, enabled: true });
    rig.engine.send(Intent::Move { address: 3, position: 1000, speed: 500, acceleration: 40 });
    let cycle = rig.run_to_sleep();

    assert_eq!(
        cycle,
        vec![
            Action::WriteTorque { address: 3, enabled: true },
            Action::WriteMove { address: 3, position: 1000, speed: 500, acceleration: 40 },
            read(3, FieldKind::Position),
            read(3, FieldKind::Temperature),
            read(3, FieldKind::Current),
            read(7, FieldKind::Position),
            read(7, FieldKind::Temperature),
            read(7, FieldKind::Current),
            Action::Notify,
            Action::Sleep { millis: CADENCE },
        ]
    );
    let three = rig.entry(3).unwrap();
    assert!(three.torque_engaged);
    assert_eq!(three.commanded_position, 1000);
    assert_eq!(three.measured_position, 2048);
    let seven = rig.entry(7).unwrap();
    assert_eq!(seven.commanded_position, seven_before.commanded_position);
    assert_eq!(seven.commanded_position, 2048);
    assert_eq!(seven.torque_engaged, seven_before.torque_engaged);
    assert!(!seven.torque_engaged);
    assert_eq!(seven.measured_position, 2048);
}

#[test]
fn scenario_silent_actuator_stays_until_rescan() {
    let mut rig = Rig::new(vec![(9, 500)]);
    rig.mute = vec![9];
    rig.run_to_first_reading();
    let at_discovery = rig.entry(9).unwrap();
    assert_eq!(at_discovery, fresh(9, 500, 16));
    rig.run_to_sleep();
    for _ in 0..20 {
        let cycle = rig.run_to_sleep();
        assert!(cycle.contains(&read(9, FieldKind::Position)));
        assert_eq!(rig.engine.snapshot(), vec![at_discovery]);
        assert!(rig.now > at_discovery.last_update);
    }
    assert_eq!(rig.engine.connection_status(), ConnectionState::Connected);

    // A rescan that the actuator does not answer removes it.
    rig.present = vec![];
    rig.engine.send(Intent::Rescan);
    rig.run_to_sleep();
    assert_eq!(rig.engine.snapshot(), vec![]);
}

#[test]
fn intents_reach_the_link_in_the_order_sent() {
    let mut rig = Rig::new(vec![(1, 0), (2, 0), (3, 0)]);
    rig.run_to_sleep();
    let sent = vec![
        Intent::Move { address: 2, position: 10, speed: 1, acceleration: 1 },
        Intent::SetTorque { address: 1, enabled: true },
        Intent::Move { address: 2, position: 20, speed: 2, acceleration: 2 },
        Intent::Move { address: 3, position: 30, speed: 3, acceleration: 3 },
        Intent::SetTorque { address: 1, enabled: false },
        Intent::Move { address: 2, position: 10, speed: 1, acceleration: 1 },
    ];
    for intent in &sent {
        rig.engine.send(*intent);
    }
    assert_eq!(rig.engine.waiting(), sent);
    let cycle = rig.run_to_sleep();
    assert_eq!(
        cycle[..6],
        [
            Action::WriteMove { address: 2, position: 10, speed: 1, acceleration: 1 },
            Action::WriteTorque { address: 1, enabled: true },
            Action::WriteMove { address: 2, position: 20, speed: 2, acceleration: 2 },
            Action::WriteMove { address: 3, position: 30, speed: 3, acceleration: 3 },
            Action::WriteTorque { address: 1, enabled: false },
            Action::WriteMove { address: 2, position: 10, speed: 1, acceleration: 1 },
        ]
    );
    assert_eq!(writes_in(&cycle).len(), 6);
    assert_eq!(cycle[6], read(1, FieldKind::Position));
    assert_eq!(rig.engine.waiting(), vec![]);
    assert_eq!(rig.entry(2).unwrap().commanded_position, 10);
    assert_eq!(rig.entry(3).unwrap().commanded_position, 30);
    assert!(!rig.entry(1).unwrap().torque_engaged);
}

#[test]
fn intents_sent_during_a_cycle_wait_for_the_next() {
    let mut rig = Rig::new(vec![(1, 0)]);
    rig.run_to_sleep();
    let first = Intent::SetTorque { address: 1, enabled: true };
    let second = Intent::Move { address: 1, position: 5, speed: 0, acceleration: 0 };
    rig.engine.send(first);
    assert_eq!(rig.turn(), Action::WriteTorque { address: 1, enabled: true });
    rig.engine.send(second);
    assert_eq!(rig.engine.waiting(), vec![second]);
    assert_eq!(rig.turn(), read(1, FieldKind::Position));
    let rest = rig.run_to_sleep();
    assert_eq!(writes_in(&rest), vec![]);
    assert_eq!(rig.engine.waiting(), vec![second]);
    let next = rig.run_to_sleep();
    assert_eq!(
        next[0],
        Action::WriteMove { address: 1, position: 5, speed: 0, acceleration: 0 }
    );
    assert_eq!(rig.engine.waiting(), vec![]);
}

#[test]
fn commands_come_before_readings_in_a_cycle() {
    let mut rig = Rig::new(vec![(4, 100)]);
    rig.run_to_sleep();
    rig.engine.send(Intent::Move { address: 4, position: 200, speed: 0, acceleration: 50 });
    let cycle = rig.run_to_sleep();
    let write = cycle.iter().position(|a| matches!(a, Action::WriteMove { .. })).unwrap();
    let first_read = cycle.iter().position(|a| matches!(a, Action::Read { .. })).unwrap();
    assert!(write < first_read);
    assert_eq!(write, 0);
}

#[test]
fn move_is_recorded_even_if_the_actuator_does_not_answer() {
    let mut rig = Rig::new(vec![(5, 300), (6, 400)]);
    rig.run_to_sleep();
    rig.mute = vec![5];
    rig.engine.send(Intent::Move { address: 5, position: 1234, speed: 10, acceleration: 20 });
    assert_eq!(
        rig.turn(),
        Action::WriteMove { address: 5, position: 1234, speed: 10, acceleration: 20 }
    );
    // The write is only on its way, and the registry shows the intent.
    assert_eq!(rig.entry(5).unwrap().commanded_position, 1234);
    assert_eq!(rig.last, Reply::Failed(Fault::AddressAbsent));
    rig.run_to_sleep();
    assert_eq!(rig.entry(5).unwrap().commanded_position, 1234);
    assert_eq!(rig.entry(5).unwrap().measured_position, 300);
    assert_eq!(rig.entry(6).unwrap().commanded_position, 400);
    assert_eq!(rig.engine.connection_status(), ConnectionState::Connected);
}

#[test]
fn move_is_recorded_even_if_the_link_fails() {
    let mut rig = Rig::new(vec![(5, 300)]);
    rig.run_to_sleep();
    rig.cut = true;
    rig.engine.send(Intent::Move { address: 5, position: 4000, speed: 0, acceleration: 0 });
    rig.run_to_sleep();
    assert_eq!(rig.engine.connection_status(), ConnectionState::Disconnected);
    assert_eq!(rig.entry(5).unwrap().commanded_position, 4000);
}

#[test]
fn torque_flag_is_set_even_if_the_write_fails() {
    let mut rig = Rig::new(vec![(5, 300)]);
    rig.run_to_sleep();
    rig.mute = vec![5];
    rig.engine.send(Intent::SetTorque { address: 5, enabled: true });
    rig.run_to_sleep();
    assert!(rig.entry(5).unwrap().torque_engaged);
    rig.engine.send(Intent::SetTorque { address: 5, enabled: false });
    rig.run_to_sleep();
    assert!(!rig.entry(5).unwrap().torque_engaged);
}

#[test]
fn move_does_not_engage_the_torque() {
    let mut rig = Rig::new(vec![(5, 300)]);
    rig.run_to_sleep();
    rig.engine.send(Intent::Move { address: 5, position: 350, speed: 0, acceleration: 0 });
    let cycle = rig.run_to_sleep();
    assert_eq!(writes_in(&cycle).len(), 1);
    assert!(!rig.entry(5).unwrap().torque_engaged);
}

#[test]
fn intent_for_an_unknown_address_is_written_and_adds_no_entry() {
    let mut rig = Rig::new(vec![(5, 300)]);
    rig.run_to_sleep();
    let before = rig.addresses();
    rig.engine.send(Intent::Move { address: 200, position: 1, speed: 2, acceleration: 3 });
    rig.engine.send(Intent::SetTorque { address: 201, enabled: true });
    let cycle = rig.run_to_sleep();
    assert_eq!(
        writes_in(&cycle),
        vec![
            Action::WriteMove { address: 200, position: 1, speed: 2, acceleration: 3 },
            Action::WriteTorque { address: 201, enabled: true },
        ]
    );
    assert_eq!(rig.addresses(), before);
    assert_eq!(rig.entry(5).unwrap().commanded_position, 300);
}

#[test]
fn one_silent_actuator_costs_no_other_a_reading() {
    let mut rig = Rig::new(vec![(3, 111), (7, 222), (9, 333)]);
    rig.mute = vec![7];
    rig.run_to_first_reading();
    let seven = rig.entry(7).unwrap();
    let cycle = rig.run_to_sleep();
    // Cycle 0 reads position, temperature, voltage and speed of each.
    assert_eq!(
        cycle,
        vec![
            read(3, FieldKind::Temperature),
            read(3, FieldKind::Voltage),
            read(3, FieldKind::Speed),
            read(7, FieldKind::Position),
            read(7, FieldKind::Temperature),
            read(7, FieldKind::Voltage),
            read(7, FieldKind::Speed),
            read(9, FieldKind::Position),
            read(9, FieldKind::Temperature),
            read(9, FieldKind::Voltage),
            read(9, FieldKind::Speed),
            Action::Notify,
            Action::Sleep { millis: CADENCE },
        ]
    );
    assert_eq!(rig.entry(7).unwrap(), seven);
    let three = rig.entry(3).unwrap();
    assert_eq!(three.temperature, Some(31));
    assert_eq!(three.voltage, Some(74));
    assert_eq!(three.speed, Some(0));
    assert_eq!(three.current, None);
    assert_eq!(three.load, None);
    let nine = rig.entry(9).unwrap();
    assert_eq!(nine.measured_position, 333);
    assert_eq!(nine.temperature, Some(31));
    assert_eq!(nine.voltage, Some(74));
    assert!(nine.last_update > seven.last_update);
    assert_eq!(rig.engine.connection_status(), ConnectionState::Connected);
}

#[test]
fn readings_follow_the_rotation() {
    let mut rig = Rig::new(vec![(2, 50)]);
    let reads_of = |cycle: &[Action]| -> Vec<FieldKind> {
        cycle
            .iter()
            .filter_map(|a| match a {
                Action::Read { field, .. } => Some(*field),
                _ => None,
            })
            .collect()
    };
    let expected: Vec<Vec<FieldKind>> = vec![
        vec![Position, Temperature, Voltage, Speed],
        vec![Position, Temperature, Current],
        vec![Position, Temperature, Load],
        vec![Position, Temperature, Speed],
        vec![Position, Temperature],
        vec![Position, Temperature, Voltage],
        vec![Position, Temperature, Current, Speed],
        vec![Position, Temperature, Load],
    ];
    for fields in expected {
        let cycle = rig.run_to_sleep();
        assert_eq!(reads_of(&cycle), fields);
    }
    let e = rig.entry(2).unwrap();
    assert_eq!(e.temperature, Some(31));
    assert_eq!(e.voltage, Some(74));
    assert_eq!(e.current, Some(12));
    assert_eq!(e.load, Some(250));
    assert_eq!(e.speed, Some(0));
}

#[test]
fn reading_stamps_the_entry_with_its_time() {
    let mut rig = Rig::new(vec![(2, 50)]);
    assert_eq!(rig.run_to_first_reading(), read(2, FieldKind::Position));
    assert_eq!(rig.entry(2).unwrap().last_update, 16);
    // The reply to the position reading comes at 17.
    assert_eq!(rig.now, 17);
    rig.present = vec![(2, 60)];
    rig.last = Reply::Value(60);
    assert_eq!(rig.turn(), read(2, FieldKind::Temperature));
    let e = rig.entry(2).unwrap();
    assert_eq!(e.measured_position, 60);
    assert_eq!(e.commanded_position, 50);
    assert_eq!(e.last_update, 17);
    assert_eq!(e.temperature, None);
}

#[test]
fn link_failure_disconnects_and_keeps_the_registry() {
    let mut rig = Rig::new(vec![(3, 10), (7, 20)]);
    rig.run_to_sleep();
    rig.engine.send(Intent::SetTorque { address: 3, enabled: true });
    rig.run_to_sleep();
    let before = rig.engine.snapshot();
    assert_eq!(rig.engine.connection_status(), ConnectionState::Connected);

    rig.cut = true;
    assert_eq!(rig.turn(), read(3, FieldKind::Position));
    let failed_at = rig.now;
    assert_eq!(rig.turn(), Action::Sleep { millis: COOLDOWN });
    assert_eq!(rig.engine.connection_status(), ConnectionState::Disconnected);
    assert_eq!(rig.engine.snapshot(), before);
    assert!(rig.entry(3).unwrap().torque_engaged);
    assert_eq!(rig.now, failed_at + COOLDOWN);
}

#[test]
fn reopening_waits_for_the_cooldown() {
    let mut engine = Engine::new(Config { cadence_ms: CADENCE, cooldown_ms: COOLDOWN });
    assert_eq!(engine.step(Reply::Ack, 100), Action::Open);
    assert_eq!(
        engine.step(Reply::Failed(Fault::LinkFailure), 150),
        Action::Sleep { millis: COOLDOWN }
    );
    // Woken early, the engine goes back to sleep for what is left.
    assert_eq!(engine.step(Reply::Ack, 151), Action::Sleep { millis: 999 });
    assert_eq!(engine.step(Reply::Ack, 700), Action::Sleep { millis: 450 });
    assert_eq!(engine.step(Reply::Ack, 1149), Action::Sleep { millis: 1 });
    assert_eq!(engine.step(Reply::Ack, 1150), Action::Open);
    // A second failure starts a new cooldown from its own time.
    assert_eq!(
        engine.step(Reply::Failed(Fault::AddressAbsent), 1200),
        Action::Sleep { millis: COOLDOWN }
    );
    assert_eq!(engine.step(Reply::Ack, 2199), Action::Sleep { millis: 1 });
    assert_eq!(engine.step(Reply::Ack, 2200), Action::Open);
    assert_eq!(engine.connection_status(), ConnectionState::Disconnected);
}

#[test]
fn retry_time_stops_at_the_end_of_the_clock() {
    let mut engine = Engine::new(Config { cadence_ms: CADENCE, cooldown_ms: u64::MAX });
    assert_eq!(engine.step(Reply::Ack, 5), Action::Open);
    assert_eq!(
        engine.step(Reply::Failed(Fault::LinkFailure), 10),
        Action::Sleep { millis: u64::MAX }
    );
    assert_eq!(engine.step(Reply::Ack, 11), Action::Sleep { millis: u64::MAX - 11 });
    assert_eq!(engine.step(Reply::Ack, u64::MAX - 1), Action::Sleep { millis: 1 });
    assert_eq!(engine.step(Reply::Ack, u64::MAX), Action::Open);
}

#[test]
fn zero_cooldown_reopens_at_once() {
    let mut engine = Engine::new(Config { cadence_ms: CADENCE, cooldown_ms: 0 });
    assert_eq!(engine.step(Reply::Ack, 5), Action::Open);
    assert_eq!(engine.step(Reply::Failed(Fault::LinkFailure), 10), Action::Sleep { millis: 0 });
    assert_eq!(engine.step(Reply::Ack, 10), Action::Open);
}

#[test]
fn engine_recovers_when_the_link_comes_back() {
    let mut rig = Rig::new(vec![(3, 10)]);
    rig.can_open = false;
    for _ in 0..5 {
        assert_eq!(rig.run_to_sleep(), vec![Action::Open, Action::Sleep { millis: COOLDOWN }]);
        assert_eq!(rig.engine.connection_status(), ConnectionState::Disconnected);
    }
    rig.can_open = true;
    rig.run_to_sleep();
    assert_eq!(rig.engine.connection_status(), ConnectionState::Connected);
    assert_eq!(rig.addresses(), vec![3]);
    // Open attempts are at least a cooldown apart.
    let mut opened_at = Vec::new();
    let mut clock = 0u64;
    for a in &rig.log {
        if let Action::Open = a {
            opened_at.push(clock);
        }
        clock += match a {
            Action::Sleep { millis } => *millis,
            _ => 1,
        };
    }
    assert_eq!(opened_at.len(), 6);
    for pair in opened_at.windows(2) {
        assert!(pair[1] - pair[0] >= COOLDOWN);
    }
}

#[test]
fn link_failure_during_the_first_scan_aborts_it() {
    let mut rig = Rig::new(vec![(1, 10), (2, 20)]);
    assert_eq!(rig.turn(), Action::Open);
    assert_eq!(rig.turn(), Action::Probe { address: 1 });
    assert_eq!(rig.turn(), Action::Probe { address: 2 });
    rig.last = Reply::Failed(Fault::LinkFailure);
    assert_eq!(rig.turn(), Action::Sleep { millis: COOLDOWN });
    assert_eq!(rig.engine.connection_status(), ConnectionState::Disconnected);
    assert_eq!(rig.engine.snapshot(), vec![]);
    // The next scan starts over and forgets the half that was done.
    rig.present = vec![(2, 20)];
    rig.run_to_sleep();
    assert_eq!(rig.addresses(), vec![2]);
}

#[test]
fn link_failure_during_a_rescan_keeps_the_registry() {
    let mut rig = Rig::new(vec![(1, 10), (2, 20)]);
    rig.run_to_sleep();
    let before = rig.engine.snapshot();
    rig.engine.send(Intent::Rescan);
    assert_eq!(rig.turn(), Action::Probe { address: 1 });
    assert_eq!(rig.turn(), Action::Probe { address: 2 });
    rig.last = Reply::Failed(Fault::LinkFailure);
    assert_eq!(rig.turn(), Action::Sleep { millis: COOLDOWN });
    assert_eq!(rig.engine.connection_status(), ConnectionState::Disconnected);
    assert_eq!(rig.engine.snapshot(), before);
}

#[test]
fn reconnection_starts_every_entry_fresh() {
    let mut rig = Rig::new(vec![(3, 10)]);
    rig.run_to_sleep();
    rig.engine.send(Intent::SetTorque { address: 3, enabled: true });
    rig.engine.send(Intent::Move { address: 3, position: 999, speed: 0, acceleration: 0 });
    rig.run_to_sleep();
    assert!(rig.entry(3).unwrap().torque_engaged);
    rig.cut = true;
    rig.run_to_sleep();
    assert_eq!(rig.engine.connection_status(), ConnectionState::Disconnected);
    assert_eq!(rig.entry(3).unwrap().commanded_position, 999);

    rig.cut = false;
    rig.present = vec![(3, 40)];
    rig.run_to_sleep();
    assert_eq!(rig.engine.connection_status(), ConnectionState::Connected);
    let e = rig.entry(3).unwrap();
    assert_eq!(e.commanded_position, 40);
    assert_eq!(e.measured_position, 40);
    assert!(!e.torque_engaged);
}

#[test]
fn rescan_with_the_same_actuators_changes_nothing() {
    let mut rig = Rig::new(vec![(3, 2048), (7, 2048)]);
    rig.run_to_sleep();
    rig.engine.send(Intent::SetTorque { address: 3, enabled: true });
    rig.engine.send(Intent::Move { address: 3, position: 1000, speed: 500, acceleration: 40 });
    rig.engine.send(Intent::Move { address: 7, position: 3000, speed: 500, acceleration: 40 });
    rig.run_to_sleep();
    let before = rig.engine.snapshot();

    rig.engine.send(Intent::Rescan);
    let mut probes = Vec::new();
    for _ in 0..15 {
        probes.push(rig.turn());
        assert_eq!(rig.engine.snapshot(), before);
    }
    assert_eq!(probes[0], Action::Probe { address: 1 });
    assert_eq!(probes[14], Action::Probe { address: 15 });
    assert_eq!(rig.turn(), read(3, FieldKind::Position));
    assert_eq!(rig.engine.snapshot(), before);
    assert_eq!(rig.entry(3).unwrap().commanded_position, 1000);
    assert!(rig.entry(3).unwrap().torque_engaged);
    assert_eq!(rig.entry(7).unwrap().commanded_position, 3000);
    assert_eq!(rig.engine.connection_status(), ConnectionState::Connected);

    // And once more.
    rig.run_to_sleep();
    let again = rig.engine.snapshot();
    rig.engine.send(Intent::Rescan);
    rig.run_to_first_reading();
    assert_eq!(rig.engine.snapshot(), again);
}

#[test]
fn rescan_adds_the_new_and_removes_the_gone() {
    let mut rig = Rig::new(vec![(3, 100), (7, 200)]);
    rig.run_to_sleep();
    rig.engine.send(Intent::SetTorque { address: 7, enabled: true });
    rig.run_to_sleep();
    let seven = rig.entry(7).unwrap();

    rig.present = vec![(7, 250), (11, 300)];
    rig.engine.send(Intent::Rescan);
    rig.run_to_first_reading();
    let done_at = rig.now - 1;
    assert_eq!(rig.engine.snapshot(), vec![seven, fresh(11, 300, done_at)]);
    assert_eq!(rig.engine.connection_status(), ConnectionState::Connected);
}

#[test]
fn intents_behind_a_rescan_are_applied_after_it() {
    let mut rig = Rig::new(vec![(3, 100)]);
    rig.run_to_sleep();
    rig.present = vec![(3, 100), (4, 50)];
    rig.engine.send(Intent::Move { address: 4, position: 1, speed: 0, acceleration: 0 });
    rig.engine.send(Intent::Rescan);
    rig.engine.send(Intent::Move { address: 4, position: 2, speed: 0, acceleration: 0 });
    let cycle = rig.run_to_sleep();
    assert_eq!(cycle[0], Action::WriteMove { address: 4, position: 1, speed: 0, acceleration: 0 });
    assert_eq!(cycle[1], Action::Probe { address: 1 });
    assert_eq!(cycle[15], Action::Probe { address: 15 });
    assert_eq!(cycle[16], Action::WriteMove { address: 4, position: 2, speed: 0, acceleration: 0 });
    assert_eq!(cycle[17], read(3, FieldKind::Position));
    // The first move came before the actuator was known, the second after.
    assert_eq!(rig.entry(4).unwrap().commanded_position, 2);
    assert_eq!(rig.entry(4).unwrap().measured_position, 50);
}

#[test]
fn intents_sent_while_disconnected_wait_for_the_link() {
    let mut rig = Rig::new(vec![(3, 100)]);
    rig.can_open = false;
    let first = Intent::SetTorque { address: 3, enabled: true };
    let second = Intent::Move { address: 3, position: 7, speed: 0, acceleration: 0 };
    rig.engine.send(first);
    rig.run_to_sleep();
    rig.engine.send(second);
    rig.run_to_sleep();
    assert_eq!(writes_in(&rig.log), vec![]);
    assert_eq!(rig.engine.waiting(), vec![first, second]);

    rig.can_open = true;
    let cycle = rig.run_to_sleep();
    assert_eq!(
        writes_in(&cycle),
        vec![
            Action::WriteTorque { address: 3, enabled: true },
            Action::WriteMove { address: 3, position: 7, speed: 0, acceleration: 0 },
        ]
    );
    assert_eq!(cycle[16], Action::WriteTorque { address: 3, enabled: true });
    let e = rig.entry(3).unwrap();
    assert!(e.torque_engaged);
    assert_eq!(e.commanded_position, 7);
    assert_eq!(rig.engine.waiting(), vec![]);
}

#[test]
fn intents_left_by_a_link_failure_keep_their_place() {
    let mut rig = Rig::new(vec![(3, 100)]);
    rig.run_to_sleep();
    let a = Intent::Move { address: 3, position: 1, speed: 0, acceleration: 0 };
    let b = Intent::Move { address: 3, position: 2, speed: 0, acceleration: 0 };
    let c = Intent::Move { address: 3, position: 3, speed: 0, acceleration: 0 };
    let d = Intent::Move { address: 3, position: 4, speed: 0, acceleration: 0 };
    rig.engine.send(a);
    rig.engine.send(b);
    rig.engine.send(c);
    assert_eq!(rig.turn(), Action::WriteMove { address: 3, position: 1, speed: 0, acceleration: 0 });
    // The link fails while the first write is on its way.
    rig.last = Reply::Failed(Fault::LinkFailure);
    assert_eq!(rig.turn(), Action::Sleep { millis: COOLDOWN });
    assert_eq!(rig.engine.waiting(), vec![b, c]);
    rig.engine.send(d);
    assert_eq!(rig.engine.waiting(), vec![b, c, d]);

    let cycle = rig.run_to_sleep();
    assert_eq!(
        writes_in(&cycle),
        vec![
            Action::WriteMove { address: 3, position: 2, speed: 0, acceleration: 0 },
            Action::WriteMove { address: 3, position: 3, speed: 0, acceleration: 0 },
        ]
    );
    assert_eq!(rig.engine.waiting(), vec![d]);
    let next = rig.run_to_sleep();
    assert_eq!(
        writes_in(&next),
        vec![Action::WriteMove { address: 3, position: 4, speed: 0, acceleration: 0 }]
    );
    assert_eq!(rig.entry(3).unwrap().commanded_position, 4);
}

#[test]
fn submit_turns_a_malformed_move_away() {
    let mut rig = Rig::new(vec![(3, 100)]);
    rig.run_to_sleep();
    let bad = Intent::Move { address: 3, position: 4096, speed: 0, acceleration: 0 };
    assert_eq!(rig.engine.submit(bad), Err(Fault::MalformedInput));
    assert_eq!(rig.engine.waiting(), vec![]);
    let good = Intent::Move { address: 3, position: 4095, speed: 3400, acceleration: 254 };
    assert_eq!(rig.engine.submit(good), Ok(()));
    assert_eq!(rig.engine.submit(Intent::Rescan), Ok(()));
    assert_eq!(rig.engine.waiting(), vec![good, Intent::Rescan]);
    let cycle = rig.run_to_sleep();
    assert_eq!(
        cycle[0],
        Action::WriteMove { address: 3, position: 4095, speed: 3400, acceleration: 254 }
    );
    assert_eq!(rig.entry(3).unwrap().commanded_position, 4095);
}

#[test]
fn a_reply_without_a_value_refreshes_nothing() {
    let mut rig = Rig::new(vec![(3, 100)]);
    rig.run_to_first_reading();
    let before = rig.engine.snapshot();
    rig.last = Reply::Ack;
    assert_eq!(rig.turn(), read(3, FieldKind::Temperature));
    assert_eq!(rig.engine.snapshot(), before);
    rig.last = Reply::Failed(Fault::MalformedInput);
    assert_eq!(rig.turn(), read(3, FieldKind::Voltage));
    assert_eq!(rig.engine.snapshot(), before);
    assert_eq!(rig.engine.connection_status(), ConnectionState::Connected);
}

#[test]
fn a_probe_answered_without_a_value_finds_nothing() {
    let mut engine = Engine::new(Config { cadence_ms: CADENCE, cooldown_ms: COOLDOWN });
    assert_eq!(engine.step(Reply::Ack, 0), Action::Open);
    assert_eq!(engine.step(Reply::Value(0), 0), Action::Probe { address: 1 });
    let mut reply = Reply::Ack;
    for address in 2..=15u8 {
        assert_eq!(engine.step(reply, 0), Action::Probe { address });
        reply = Reply::Failed(Fault::MalformedInput);
    }
    assert_eq!(engine.step(Reply::Value(9), 3), Action::Read {
        address: 15,
        field: FieldKind::Position
    });
    assert_eq!(engine.snapshot(), vec![fresh(15, 9, 3)]);
}

#[test]
fn cycle_pauses_for_the_cadence() {
    let mut rig = Rig::new(vec![]);
    rig.engine = Engine::new(Config { cadence_ms: 100, cooldown_ms: COOLDOWN });
    let first = rig.run_to_sleep();
    assert_eq!(first.last(), Some(&Action::Sleep { millis: 100 }));
    let second = rig.run_to_sleep();
    assert_eq!(second, vec![Action::Notify, Action::Sleep { millis: 100 }]);
}

#[test]
fn sole_address_needs_exactly_one_actuator() {
    let mut none = Rig::new(vec![]);
    none.run_to_sleep();
    assert_eq!(none.engine.sole_address(), None);

    let mut one = Rig::new(vec![(6, 10)]);
    assert_eq!(one.engine.sole_address(), None);
    one.run_to_sleep();
    assert_eq!(one.engine.sole_address(), Some(6));

    let mut two = Rig::new(vec![(6, 10), (9, 10)]);
    two.run_to_sleep();
    assert_eq!(two.engine.sole_address(), None);
}

#[test]
fn engine_is_between_cycles_only_while_it_pauses() {
    let mut rig = Rig::new(vec![(6, 10)]);
    assert!(rig.engine.between_cycles());
    for _ in 0..3 {
        loop {
            let action = rig.turn();
            let pausing = matches!(action, Action::Sleep { .. });
            assert_eq!(rig.engine.between_cycles(), pausing);
            assert_eq!(rig.engine.pending(), action);
            if pausing {
                break;
            }
        }
    }
}

#[test]
fn a_late_reading_does_not_bring_an_address_back() {
    // The engine asks for a reading of 3, and the reply is handed to an
    // engine whose registry no longer holds 3.
    let mut rig = Rig::new(vec![(3, 10), (5, 20)]);
    rig.run_to_sleep();
    rig.present = vec![(5, 20)];
    rig.engine.send(Intent::Rescan);
    rig.run_to_first_reading();
    assert_eq!(rig.addresses(), vec![5]);
    assert_eq!(rig.engine.pending(), read(5, FieldKind::Position));
    let before = rig.engine.snapshot();
    rig.last = Reply::Failed(Fault::AddressAbsent);
    rig.run_to_sleep();
    assert_eq!(rig.addresses(), vec![5]);
    assert_eq!(rig.engine.snapshot()[0].commanded_position, before[0].commanded_position);
}
