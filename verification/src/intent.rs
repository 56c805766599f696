//! Intents: what a control surface may ask of the engine, and the checks
//! applied to user input before anything is enqueued.

use vstd::prelude::*;

verus! {

/// Largest position an actuator reports or accepts.
pub const MAX_POSITION: u16 = 4095;

/// Largest speed a move may ask for.
pub const MAX_SPEED: u16 = 3400;

/// Largest acceleration a move may ask for.
pub const MAX_ACCELERATION: u8 = 254;

/// Largest address that can be assigned to an actuator; the two above it
/// are reserved by the bus.
pub const MAX_ASSIGNABLE_ADDRESS: u8 = 253;

/// The failure classes the engine distinguishes.
#[derive(Clone, Copy, Debug, PartialEq, Eq)]
pub enum Fault {
    /// One actuator did not answer.  Tolerated: the value it would have
    /// refreshed stays as it was.
    AddressAbsent,
    /// The transport itself failed.  The engine drops the connection and
    /// retries after the cooldown.
    LinkFailure,
    /// User input that is rejected before it reaches the queue or the link.
    MalformedInput,
}

/// A command from the control surface.  Immutable once built.
#[derive(Clone, Copy, Debug, PartialEq, Eq)]
pub enum Intent {
    /// Drive one actuator to `position`.
    Move { address: u8, position: u16, speed: u16, acceleration: u8 },
    /// Engage or release the holding torque of one actuator.
    SetTorque { address: u8, enabled: bool },
    /// Probe the whole address range again.
    Rescan,
}

impl Intent {
    /// A move is well formed when its three parameters are within the
    /// actuator's limits; the other intents always are.
    pub open spec fn well_formed(self) -> bool {
        match self {
            Intent::Move { address, position, speed, acceleration } => {
                &&& position <= MAX_POSITION
                &&& speed <= MAX_SPEED
                &&& acceleration <= MAX_ACCELERATION
            },
            Intent::SetTorque { .. } => true,
            Intent::Rescan => true,
        }
    }

    /// Checks an intent before it is enqueued.
    pub fn validate(&self) -> (r: Result<(), Fault>)
        ensures
            self.well_formed() ==> r == Ok::<(), Fault>(()),
            !self.well_formed() ==> r == Err::<(), Fault>(Fault::MalformedInput),
    {
        match self {
            Intent::Move { address, position, speed, acceleration } => {
                if *position <= MAX_POSITION && *speed <= MAX_SPEED && *acceleration
                    <= MAX_ACCELERATION {
                    Ok(())
                } else {
                    Err(Fault::MalformedInput)
                }
            },
            Intent::SetTorque { .. } => Ok(()),
            Intent::Rescan => Ok(()),
        }
    }
}

/// Whether `target` may become the address of an actuator.
pub open spec fn assignable(target: u8) -> bool {
    target <= MAX_ASSIGNABLE_ADDRESS
}

/// Checks the target of an address reassignment before any request is sent.
/// That exactly one actuator is on the bus is for the caller to ensure.
pub fn validate_address_target(target: u8) -> (r: Result<u8, Fault>)
    ensures
        assignable(target) ==> r == Ok::<u8, Fault>(target),
        !assignable(target) ==> r == Err::<u8, Fault>(Fault::MalformedInput),
{
    if target <= MAX_ASSIGNABLE_ADDRESS {
        Ok(target)
    } else {
        Err(Fault::MalformedInput)
    }
}

/// The intents a surface sends for a move: when the actuator's torque is
/// off, the torque is engaged first, so that the move has an effect.
pub open spec fn move_intents(
    torque_engaged: bool,
    address: u8,
    position: u16,
    speed: u16,
    acceleration: u8,
) -> Seq<Intent> {
    let go = Intent::Move { address, position, speed, acceleration };
    if torque_engaged {
        seq![go]
    } else {
        seq![Intent::SetTorque { address, enabled: true }, go]
    }
}

/// Builds [`move_intents`], in the order in which they are to be sent.
pub fn move_with_torque(
    torque_engaged: bool,
    address: u8,
    position: u16,
    speed: u16,
    acceleration: u8,
) -> (out: Vec<Intent>)
    ensures
        out@ == move_intents(torque_engaged, address, position, speed, acceleration),
{
    let mut out: Vec<Intent> = Vec::new();
    if !torque_engaged {
        out.push(Intent::SetTorque { address, enabled: true });
    }
    out.push(Intent::Move { address, position, speed, acceleration });
    out
}

} // verus!
