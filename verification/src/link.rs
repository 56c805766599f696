//! The vocabulary spoken between the engine and the worker loop that owns
//! the serial link: the requests the engine asks for, and the replies it is
//! handed.

use crate::intent::Fault;
use vstd::prelude::*;

verus! {

/// First address probed by a discovery scan.
pub const FIRST_ADDRESS: u8 = 1;

/// Last address probed by a discovery scan.
pub const LAST_ADDRESS: u8 = 15;

/// One scalar reading an actuator can report.
#[derive(Clone, Copy, Debug, PartialEq, Eq)]
pub enum FieldKind {
    Position,
    Temperature,
    Voltage,
    Current,
    Load,
    Speed,
}

/// A request for the worker loop to perform.  Every step of the engine
/// yields exactly one.
#[derive(Clone, Copy, Debug, PartialEq, Eq)]
pub enum Action {
    /// Open the transport, dropping any earlier handle.
    Open,
    /// Liveness read of the position at `address`, as part of a scan.
    Probe { address: u8 },
    /// Read one telemetry field.
    Read { address: u8, field: FieldKind },
    /// Write a target position with its speed and acceleration.
    WriteMove { address: u8, position: u16, speed: u16, acceleration: u8 },
    /// Engage or release the torque.
    WriteTorque { address: u8, enabled: bool },
    /// Tell the control surface that fresh data is available.
    Notify,
    /// Do nothing for `millis` milliseconds.
    Sleep { millis: u64 },
}

/// The outcome of the last [`Action`], as classified by the worker loop.
#[derive(Clone, Copy, Debug, PartialEq, Eq)]
pub enum Reply {
    /// The request was carried out and has no value to report.
    Ack,
    /// The value that was read, in the unit of the actuator's register.
    Value(u16),
    /// The request failed.
    Failed(Fault),
}

/// What a driver reports of one request, before it is classified.
#[derive(Clone, Copy, Debug, PartialEq, Eq)]
pub enum Outcome {
    /// The request was carried out and has no value to report.
    Done,
    /// The value that was read.
    Value(u16),
    /// Nobody answered within the driver's own timeout.
    NoAnswer,
    /// The actuator answered, and reported an error of its own.
    Refused,
    /// The transport could not carry the request.
    Broken,
}

impl Reply {
    /// The class of an outcome.  An actuator that stays silent or reports an
    /// error is a failure of that one request; only a transport that cannot
    /// carry the request is a failure of the link.
    pub open spec fn of(outcome: Outcome) -> Reply {
        match outcome {
            Outcome::Done => Reply::Ack,
            Outcome::Value(value) => Reply::Value(value),
            Outcome::NoAnswer => Reply::Failed(Fault::AddressAbsent),
            Outcome::Refused => Reply::Failed(Fault::AddressAbsent),
            Outcome::Broken => Reply::Failed(Fault::LinkFailure),
        }
    }

    /// Classifies what a driver reported.
    pub fn classify(outcome: Outcome) -> (r: Reply)
        ensures
            r == Reply::of(outcome),
            r.is_link_failure() <==> outcome is Broken,
            r.succeeded() <==> outcome is Done || outcome is Value,
    {
        match outcome {
            Outcome::Done => Reply::Ack,
            Outcome::Value(value) => Reply::Value(value),
            Outcome::NoAnswer => Reply::Failed(Fault::AddressAbsent),
            Outcome::Refused => Reply::Failed(Fault::AddressAbsent),
            Outcome::Broken => Reply::Failed(Fault::LinkFailure),
        }
    }

    /// Only a failure of the transport itself drops the connection.
    pub open spec fn is_link_failure(self) -> bool {
        self == Reply::Failed(Fault::LinkFailure)
    }

    /// Whether the request was carried out.
    pub open spec fn succeeded(self) -> bool {
        self is Ack || self is Value
    }

    /// Executable form of [`Reply::is_link_failure`].
    pub fn link_failed(&self) -> (b: bool)
        ensures
            b == self.is_link_failure(),
    {
        match self {
            Reply::Failed(Fault::LinkFailure) => true,
            _ => false,
        }
    }

    /// Executable form of [`Reply::succeeded`].
    pub fn carried_out(&self) -> (b: bool)
        ensures
            b == self.succeeded(),
    {
        match self {
            Reply::Ack => true,
            Reply::Value(_) => true,
            Reply::Failed(_) => false,
        }
    }
}

/// The earliest time of the next attempt to open the transport, after a
/// failure at `now`.
pub open spec fn retry_time(now: u64, cooldown_ms: u64) -> u64 {
    if now + cooldown_ms > u64::MAX {
        u64::MAX
    } else {
        (now + cooldown_ms) as u64
    }
}

} // verus!
