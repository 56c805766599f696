//! Background synchronisation engine for a fleet of addressable servo
//! actuators on one serial link.
//!
//! The engine never touches the link itself.  A worker loop hands it the
//! outcome of the last request ([`link::Reply`]) and receives the next request
//! to perform ([`link::Action`]); between two such steps the engine owns the
//! actuator registry, the command queue and the connection state, so every
//! step is a short critical section that holds no hardware round-trip.
//!
//! * [`intent`]: what a control surface may ask for, and the checks on user
//!   input.
//! * [`link`]: the requests and replies exchanged with the worker loop.
//! * [`schedule`]: which telemetry fields a poll cycle reads.
//! * [`registry`]: the mirror of the actuators, in ascending order of
//!   address.
//! * [`queue`]: the first-in, first-out queue of intents.
//! * [`model`]: the engine as a state machine over mathematical values.
//! * [`engine`]: the executable engine, proved to compute the model.
//! * [`laws`]: what holds of every run of the engine.

pub mod engine;
pub mod intent;
pub mod laws;
pub mod link;
pub mod model;
pub mod queue;
pub mod registry;
pub mod schedule;
