//! What holds of the engine in every run.
//!
//! A run is a sequence of inputs fed to a state of the model: intents sent
//! by the surface, and replies handed in by the worker loop.  Each law is a
//! proof about the step function of the model, which the executable engine
//! computes.

pub mod cycle;
pub mod discovery;
pub mod link_loss;
pub mod order;
pub mod polling;
pub mod runs;
pub mod writes;
