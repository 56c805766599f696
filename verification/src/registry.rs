//! The actuator registry: the mirror of every discovered actuator, kept in
//! ascending order of address with no address held twice.
//!
//! The registry is modelled by the sequence of its entries.  Every operation
//! is stated over that sequence, so what a snapshot shows after an operation
//! can be read off the contract.

use crate::link::FieldKind;
use vstd::prelude::*;

verus! {

/// What is known of one actuator.
#[derive(Clone, Copy, Debug, PartialEq, Eq)]
pub struct ActuatorState {
    /// The actuator's address on the bus.
    pub address: u8,
    /// The position last read from the actuator.
    pub measured_position: u16,
    /// The position last asked of the actuator.
    pub commanded_position: u16,
    /// The temperature last read, if it was ever read.
    pub temperature: Option<u16>,
    /// The supply voltage last read, if it was ever read.
    pub voltage: Option<u16>,
    /// The current last read, if it was ever read.
    pub current: Option<u16>,
    /// The load last read, if it was ever read.
    pub load: Option<u16>,
    /// The speed last read, if it was ever read.
    pub speed: Option<u16>,
    /// Whether the torque was last asked to be engaged.
    pub torque_engaged: bool,
    /// Time of the last reading that succeeded, in milliseconds.
    pub last_update: u64,
}

impl ActuatorState {
    /// The state of an actuator that has just answered a scan with
    /// `position`: it is asked to stay where it is, and its torque is taken
    /// to be off.
    pub open spec fn fresh(address: u8, position: u16, now: u64) -> ActuatorState {
        ActuatorState {
            address,
            measured_position: position,
            commanded_position: position,
            temperature: None,
            voltage: None,
            current: None,
            load: None,
            speed: None,
            torque_engaged: false,
            last_update: now,
        }
    }

    /// This state with another commanded position.
    pub open spec fn commanded(self, position: u16) -> ActuatorState {
        ActuatorState { commanded_position: position, ..self }
    }

    /// This state with the torque flag set to `enabled`.
    pub open spec fn torqued(self, enabled: bool) -> ActuatorState {
        ActuatorState { torque_engaged: enabled, ..self }
    }

    /// This state after `value` was read for `field` at time `now`.  No
    /// reading touches the commanded position or the torque flag.
    pub open spec fn refreshed(self, field: FieldKind, value: u16, now: u64) -> ActuatorState {
        match field {
            FieldKind::Position => ActuatorState {
                measured_position: value,
                last_update: now,
                ..self
            },
            FieldKind::Temperature => ActuatorState {
                temperature: Some(value),
                last_update: now,
                ..self
            },
            FieldKind::Voltage => ActuatorState { voltage: Some(value), last_update: now, ..self },
            FieldKind::Current => ActuatorState { current: Some(value), last_update: now, ..self },
            FieldKind::Load => ActuatorState { load: Some(value), last_update: now, ..self },
            FieldKind::Speed => ActuatorState { speed: Some(value), last_update: now, ..self },
        }
    }

    /// Builds [`ActuatorState::fresh`].
    pub fn discovered(address: u8, position: u16, now: u64) -> (s: ActuatorState)
        ensures
            s == ActuatorState::fresh(address, position, now),
    {
        ActuatorState {
            address,
            measured_position: position,
            commanded_position: position,
            temperature: None,
            voltage: None,
            current: None,
            load: None,
            speed: None,
            torque_engaged: false,
            last_update: now,
        }
    }

    /// Builds [`ActuatorState::refreshed`].
    pub fn with_reading(self, field: FieldKind, value: u16, now: u64) -> (s: ActuatorState)
        ensures
            s == self.refreshed(field, value, now),
    {
        let mut s = self;
        s.last_update = now;
        match field {
            FieldKind::Position => {
                s.measured_position = value;
            },
            FieldKind::Temperature => {
                s.temperature = Some(value);
            },
            FieldKind::Voltage => {
                s.voltage = Some(value);
            },
            FieldKind::Current => {
                s.current = Some(value);
            },
            FieldKind::Load => {
                s.load = Some(value);
            },
            FieldKind::Speed => {
                s.speed = Some(value);
            },
        }
        s
    }
}

/// Addresses grow strictly along the sequence.
pub open spec fn ascending(s: Seq<ActuatorState>) -> bool {
    forall|i: int, j: int| 0 <= i < j < s.len() ==> s[i].address < s[j].address
}

/// Whether `s` has an entry for `address`.
pub open spec fn holds(s: Seq<ActuatorState>, address: u8) -> bool {
    exists|i: int| 0 <= i < s.len() && #[trigger] s[i].address == address
}

/// The entry of `s` for `address`, where it has one.
pub open spec fn entry(s: Seq<ActuatorState>, address: u8) -> ActuatorState {
    s[choose|i: int| 0 <= i < s.len() && #[trigger] s[i].address == address]
}

/// The entry of `s` for `address`, or nothing.
pub open spec fn lookup(s: Seq<ActuatorState>, address: u8) -> Option<ActuatorState> {
    if holds(s, address) {
        Some(entry(s, address))
    } else {
        None
    }
}

/// How many entries of `s` have an address below `bound`.
pub open spec fn count_below(s: Seq<ActuatorState>, bound: int) -> int
    decreases s.len(),
{
    if s.len() == 0 {
        0
    } else {
        count_below(s.drop_last(), bound) + if s.last().address < bound {
            1int
        } else {
            0int
        }
    }
}

/// `s` with `state` as the entry for its address: the entries below that
/// address, then `state`, then the entries above it.
pub open spec fn upserted(s: Seq<ActuatorState>, state: ActuatorState) -> Seq<ActuatorState> {
    s.take(count_below(s, state.address as int)).push(state) + s.skip(
        count_below(s, state.address + 1),
    )
}

/// `s` with the commanded position of `address` set to `position`.  Nothing
/// changes where `s` has no such entry.
pub open spec fn commanded_at(s: Seq<ActuatorState>, address: u8, position: u16) -> Seq<
    ActuatorState,
> {
    Seq::new(
        s.len(),
        |i: int|
            if s[i].address == address {
                s[i].commanded(position)
            } else {
                s[i]
            },
    )
}

/// `s` with the torque flag of `address` set to `enabled`.  Nothing changes
/// where `s` has no such entry.
pub open spec fn torqued_at(s: Seq<ActuatorState>, address: u8, enabled: bool) -> Seq<
    ActuatorState,
> {
    Seq::new(
        s.len(),
        |i: int|
            if s[i].address == address {
                s[i].torqued(enabled)
            } else {
                s[i]
            },
    )
}

/// `s` after `value` was read for `field` of `address` at time `now`.
/// Nothing changes where `s` has no such entry: a reading never brings an
/// address into the registry.
pub open spec fn refreshed_at(
    s: Seq<ActuatorState>,
    address: u8,
    field: FieldKind,
    value: u16,
    now: u64,
) -> Seq<ActuatorState> {
    Seq::new(
        s.len(),
        |i: int|
            if s[i].address == address {
                s[i].refreshed(field, value, now)
            } else {
                s[i]
            },
    )
}

/// In an ascending sequence the entry for an address is the only one that
/// carries it.
pub proof fn lemma_entry_is_unique(s: Seq<ActuatorState>, k: int)
    requires
        ascending(s),
        0 <= k < s.len(),
    ensures
        holds(s, s[k].address),
        entry(s, s[k].address) == s[k],
        lookup(s, s[k].address) == Some(s[k]),
{
    let a = s[k].address;
    assert(s[k].address == a);
    let c = choose|i: int| 0 <= i < s.len() && #[trigger] s[i].address == a;
    if c < k {
        assert(s[c].address < s[k].address);
    } else if k < c {
        assert(s[k].address < s[c].address);
    }
}

/// Where the addresses below `bound` are exactly the first `k` entries,
/// `k` is their count.
pub proof fn lemma_count_below_is_split(s: Seq<ActuatorState>, bound: int, k: int)
    requires
        0 <= k <= s.len(),
        forall|i: int| 0 <= i < k ==> s[i].address < bound,
        forall|i: int| k <= i < s.len() ==> s[i].address >= bound,
    ensures
        count_below(s, bound) == k,
    decreases s.len(),
{
    if s.len() > 0 {
        let t = s.drop_last();
        if k == s.len() {
            lemma_count_below_is_split(t, bound, k - 1);
        } else {
            lemma_count_below_is_split(t, bound, k);
        }
    }
}

/// An entry whose address is above every address of `s` goes to the end.
pub proof fn lemma_upsert_above_appends(s: Seq<ActuatorState>, state: ActuatorState)
    requires
        forall|i: int| 0 <= i < s.len() ==> s[i].address < state.address,
    ensures
        upserted(s, state) == s.push(state),
{
    lemma_count_below_is_split(s, state.address as int, s.len() as int);
    lemma_count_below_is_split(s, state.address + 1, s.len() as int);
    assert(upserted(s, state) =~= s.push(state));
}

/// In an ascending sequence the entries below `bound` are the first
/// `count_below` entries, and no other.
pub proof fn lemma_count_below_splits(s: Seq<ActuatorState>, bound: int)
    requires
        ascending(s),
    ensures
        0 <= count_below(s, bound) <= s.len(),
        forall|i: int| 0 <= i < count_below(s, bound) ==> (#[trigger] s[i]).address < bound,
        forall|i: int| count_below(s, bound) <= i < s.len() ==> (#[trigger] s[i]).address >= bound,
    decreases s.len(),
{
    if s.len() > 0 {
        let t = s.drop_last();
        lemma_count_below_splits(t, bound);
        if s.last().address < bound {
            if count_below(t, bound) < t.len() {
                let i = count_below(t, bound);
                assert(t[i].address >= bound);
                assert(s[i].address < s[s.len() - 1].address);
            }
            assert forall|i: int| 0 <= i < count_below(s, bound) implies (#[trigger] s[i]).address
                < bound by {
                if i < t.len() {
                    assert(s[i] == t[i]);
                }
            }
        } else {
            assert forall|i: int| count_below(s, bound) <= i < s.len() implies (
            #[trigger] s[i]).address >= bound by {
                if i < t.len() {
                    assert(s[i] == t[i]);
                }
            }
            assert forall|i: int| 0 <= i < count_below(s, bound) implies (#[trigger] s[i]).address
                < bound by {
                assert(s[i] == t[i]);
            }
        }
    }
}

/// An upsert sets one entry and leaves the others alone.  The registry
/// stays in ascending order, so it still holds no address twice; the entry
/// for the address that was put in is the state that was put in; and for
/// every other address the registry holds what it held.
pub proof fn law_upsert_sets_one_entry(s: Seq<ActuatorState>, state: ActuatorState)
    requires
        ascending(s),
    ensures
        ascending(upserted(s, state)),
        lookup(upserted(s, state), state.address) == Some(state),
        forall|a: u8| a != state.address ==> lookup(upserted(s, state), a) == lookup(s, a),
{
    let a = state.address;
    let u = upserted(s, state);
    let k = count_below(s, a as int);
    let k2 = count_below(s, a + 1);
    lemma_count_below_splits(s, a as int);
    lemma_count_below_splits(s, a + 1);
    assert(k <= k2) by {
        if k2 < k {
            assert(s[k2].address >= a + 1);
            assert(s[k2].address < a);
        }
    }
    assert(u.len() == k + 1 + (s.len() - k2));
    assert(u[k] == state);
    assert forall|i: int| 0 <= i < k implies u[i] == s[i] by {}
    assert forall|i: int| k < i < u.len() implies u[i] == s[i - k - 1 + k2] by {}
    assert(ascending(u)) by {
        assert forall|i: int, j: int| 0 <= i < j < u.len() implies u[i].address
            < u[j].address by {
            if j < k {
                assert(s[i].address < s[j].address);
            } else if j == k {
                assert(s[i].address < a);
            } else {
                let sj = j - k - 1 + k2;
                assert(s[sj].address >= a + 1);
                if i < k {
                    assert(s[i].address < a);
                } else if i > k {
                    assert(s[i - k - 1 + k2].address < s[sj].address);
                }
            }
        }
    }
    lemma_entry_is_unique(u, k);
    assert forall|x: u8| x != a implies lookup(u, x) == lookup(s, x) by {
        if holds(s, x) {
            let i = choose|i: int| 0 <= i < s.len() && #[trigger] s[i].address == x;
            lemma_entry_is_unique(s, i);
            if x < a {
                if i >= k {
                    assert(s[i].address >= a);
                }
                assert(u[i] == s[i]);
                lemma_entry_is_unique(u, i);
            } else {
                if i < k2 {
                    assert(s[i].address < a + 1);
                }
                let j = i - k2 + k + 1;
                assert(u[j] == s[i]);
                lemma_entry_is_unique(u, j);
            }
        }
        if holds(u, x) {
            let j = choose|j: int| 0 <= j < u.len() && #[trigger] u[j].address == x;
            if j < k {
                assert(u[j] == s[j]);
                assert(s[j].address == x);
            } else {
                assert(j > k);
                assert(u[j] == s[j - k - 1 + k2]);
                assert(s[j - k - 1 + k2].address == x);
            }
            assert(holds(s, x));
        }
    }
}

/// Whether two registries hold the same addresses in the same places.
pub open spec fn same_addresses(a: Seq<ActuatorState>, b: Seq<ActuatorState>) -> bool {
    &&& a.len() == b.len()
    &&& forall|i: int| 0 <= i < a.len() ==> (#[trigger] a[i]).address == b[i].address
}

/// Two ascending sequences that hold the same addresses hold them in the
/// same places.
pub proof fn lemma_same_addresses_same_places(a: Seq<ActuatorState>, b: Seq<ActuatorState>)
    requires
        ascending(a),
        ascending(b),
        forall|x: u8| holds(a, x) <==> holds(b, x),
    ensures
        a.len() == b.len(),
        forall|i: int| 0 <= i < a.len() ==> (#[trigger] a[i]).address == b[i].address,
    decreases a.len(),
{
    if a.len() == 0 {
        if b.len() > 0 {
            assert(holds(b, b[0].address));
        }
    } else {
        let x = a.last().address;
        assert(holds(a, x));
        assert(b.len() > 0);
        let y = b.last().address;
        assert(holds(b, y));
        // the last entries carry the largest addresses, so these agree
        let i = choose|i: int| 0 <= i < b.len() && (#[trigger] b[i]).address == x;
        let j = choose|j: int| 0 <= j < a.len() && (#[trigger] a[j]).address == y;
        assert(x == y) by {
            if i < b.len() - 1 {
                assert(b[i].address < b[b.len() - 1].address);
            }
            if j < a.len() - 1 {
                assert(a[j].address < a[a.len() - 1].address);
            }
        }
        let a0 = a.drop_last();
        let b0 = b.drop_last();
        assert forall|z: u8| holds(a0, z) <==> holds(b0, z) by {
            if holds(a0, z) {
                let k = choose|k: int| 0 <= k < a0.len() && (#[trigger] a0[k]).address == z;
                assert(a[k].address == z);
                assert(a[k].address < a[a.len() - 1].address);
                assert(holds(a, z));
                let l = choose|l: int| 0 <= l < b.len() && (#[trigger] b[l]).address == z;
                assert(l < b.len() - 1);
                assert(b0[l].address == z);
            }
            if holds(b0, z) {
                let k = choose|k: int| 0 <= k < b0.len() && (#[trigger] b0[k]).address == z;
                assert(b[k].address == z);
                assert(b[k].address < b[b.len() - 1].address);
                assert(holds(b, z));
                let l = choose|l: int| 0 <= l < a.len() && (#[trigger] a[l]).address == z;
                assert(l < a.len() - 1);
                assert(a0[l].address == z);
            }
        }
        lemma_same_addresses_same_places(a0, b0);
        assert forall|i: int| 0 <= i < a.len() implies (#[trigger] a[i]).address
            == b[i].address by {
            if i < a.len() - 1 {
                assert(a0[i].address == b0[i].address);
            }
        }
    }
}

/// The registry of actuators.
pub struct ActuatorRegistry {
    entries: Vec<ActuatorState>,
}

impl View for ActuatorRegistry {
    type V = Seq<ActuatorState>;

    closed spec fn view(&self) -> Seq<ActuatorState> {
        self.entries@
    }
}

impl ActuatorRegistry {
    /// The entries are in ascending order of address, so no address occurs
    /// twice.
    pub open spec fn wf(&self) -> bool {
        ascending(self@)
    }

    /// A registry without entries.
    pub fn new() -> (r: ActuatorRegistry)
        ensures
            r@ == Seq::<ActuatorState>::empty(),
            r.wf(),
    {
        ActuatorRegistry { entries: Vec::new() }
    }

    /// The number of entries.
    pub fn len(&self) -> (n: usize)
        ensures
            n == self@.len(),
    {
        self.entries.len()
    }

    /// Whether the registry has no entry.
    pub fn is_empty(&self) -> (b: bool)
        ensures
            b == (self@.len() == 0),
    {
        self.entries.len() == 0
    }

    /// All entries as they are at this moment, in ascending order of
    /// address.
    pub fn snapshot(&self) -> (out: Vec<ActuatorState>)
        ensures
            out@ == self@,
    {
        let mut out: Vec<ActuatorState> = Vec::new();
        let mut i: usize = 0;
        while i < self.entries.len()
            invariant
                i <= self.entries.len(),
                out@ == self.entries@.take(i as int),
            decreases self.entries.len() - i,
        {
            out.push(self.entries[i]);
            assert(self.entries@.take(i + 1) =~= self.entries@.take(i as int).push(
                self.entries@[i as int],
            ));
            i += 1;
        }
        assert(self.entries@.take(i as int) =~= self.entries@);
        out
    }

    /// The entry in place `slot` of the ascending order, if there are that
    /// many.
    pub fn entry_at(&self, slot: usize) -> (r: Option<ActuatorState>)
        ensures
            r == if slot < self@.len() {
                Some(self@[slot as int])
            } else {
                None
            },
    {
        if slot < self.entries.len() {
            Some(self.entries[slot])
        } else {
            None
        }
    }

    /// The entry for `address`, if there is one.
    pub fn get(&self, address: u8) -> (r: Option<ActuatorState>)
        requires
            self.wf(),
        ensures
            r == lookup(self@, address),
    {
        let mut i: usize = 0;
        while i < self.entries.len()
            invariant
                self.wf(),
                i <= self.entries.len(),
                forall|j: int| 0 <= j < i ==> self.entries@[j].address != address,
            decreases self.entries.len() - i,
        {
            if self.entries[i].address == address {
                proof {
                    lemma_entry_is_unique(self@, i as int);
                }
                return Some(self.entries[i]);
            }
            i += 1;
        }
        None
    }

    /// Whether there is an entry for `address`.
    pub fn contains(&self, address: u8) -> (b: bool)
        requires
            self.wf(),
        ensures
            b == holds(self@, address),
    {
        self.get(address).is_some()
    }

    /// Puts `state` in as the entry for its address, in place of the entry
    /// that address had, if it had one.  Meant for discovery only.
    pub fn upsert(&mut self, state: ActuatorState)
        requires
            old(self).wf(),
        ensures
            final(self).wf(),
            final(self)@ == upserted(old(self)@, state),
    {
        let ghost before = self@;
        let mut k: usize = 0;
        while k < self.entries.len() && self.entries[k].address < state.address
            invariant
                k <= self.entries.len(),
                self.entries@ == before,
                forall|i: int| 0 <= i < k ==> before[i].address < state.address,
            decreases self.entries.len() - k,
        {
            k += 1;
        }
        if k < self.entries.len() && self.entries[k].address == state.address {
            proof {
                lemma_count_below_is_split(before, state.address as int, k as int);
                lemma_count_below_is_split(before, state.address + 1, k + 1);
            }
            self.entries.set(k, state);
        } else {
            proof {
                lemma_count_below_is_split(before, state.address as int, k as int);
                lemma_count_below_is_split(before, state.address + 1, k as int);
            }
            self.entries.insert(k, state);
        }
        assert(self.entries@ =~= upserted(before, state));
    }

    /// Records that `address` was asked to move to `position`.  Does nothing
    /// where the registry has no such entry.
    pub fn set_commanded(&mut self, address: u8, position: u16)
        ensures
            final(self)@ == commanded_at(old(self)@, address, position),
            old(self).wf() ==> final(self).wf(),
    {
        let ghost before = self@;
        let mut i: usize = 0;
        while i < self.entries.len()
            invariant
                i <= self.entries.len(),
                self.entries@.len() == before.len(),
                forall|j: int|
                    0 <= j < i ==> self.entries@[j] == commanded_at(before, address, position)[j],
                forall|j: int| i <= j < before.len() ==> self.entries@[j] == before[j],
            decreases self.entries.len() - i,
        {
            let e = self.entries[i];
            if e.address == address {
                self.entries.set(i, ActuatorState { commanded_position: position, ..e });
            }
            i += 1;
        }
        assert(self.entries@ =~= commanded_at(before, address, position));
    }

    /// Records that the torque of `address` was asked to be `enabled`.  Does
    /// nothing where the registry has no such entry.
    pub fn set_torque(&mut self, address: u8, enabled: bool)
        ensures
            final(self)@ == torqued_at(old(self)@, address, enabled),
            old(self).wf() ==> final(self).wf(),
    {
        let ghost before = self@;
        let mut i: usize = 0;
        while i < self.entries.len()
            invariant
                i <= self.entries.len(),
                self.entries@.len() == before.len(),
                forall|j: int|
                    0 <= j < i ==> self.entries@[j] == torqued_at(before, address, enabled)[j],
                forall|j: int| i <= j < before.len() ==> self.entries@[j] == before[j],
            decreases self.entries.len() - i,
        {
            let e = self.entries[i];
            if e.address == address {
                self.entries.set(i, ActuatorState { torque_engaged: enabled, ..e });
            }
            i += 1;
        }
        assert(self.entries@ =~= torqued_at(before, address, enabled));
    }

    /// Records a reading of `field` of `address`, taken at `now`.  Does
    /// nothing where the registry has no such entry, so a late reading never
    /// brings back an address that a scan has removed.
    pub fn update_field(&mut self, address: u8, field: FieldKind, value: u16, now: u64)
        ensures
            final(self)@ == refreshed_at(old(self)@, address, field, value, now),
            old(self).wf() ==> final(self).wf(),
    {
        let ghost before = self@;
        let mut i: usize = 0;
        while i < self.entries.len()
            invariant
                i <= self.entries.len(),
                self.entries@.len() == before.len(),
                forall|j: int|
                    0 <= j < i ==> self.entries@[j] == refreshed_at(
                        before,
                        address,
                        field,
                        value,
                        now,
                    )[j],
                forall|j: int| i <= j < before.len() ==> self.entries@[j] == before[j],
            decreases self.entries.len() - i,
        {
            let e = self.entries[i];
            if e.address == address {
                self.entries.set(i, e.with_reading(field, value, now));
            }
            i += 1;
        }
        assert(self.entries@ =~= refreshed_at(before, address, field, value, now));
    }
}

} // verus!
