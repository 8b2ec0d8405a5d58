//! A fixed-point simulation of charged point particles in a bounded arena.
//!
//! Positions, velocities and charges are integers in units chosen by the
//! caller; time advances in whole quanta. Every phase of a tick is an
//! executable function proved equal to a mathematical model of that phase,
//! and the laws the simulation obeys are proved over those models.

pub mod annihilation;
pub mod config;
pub mod emitter;
pub mod fixed;
pub mod forces;
pub mod laws;
pub mod motion;
pub mod particle;
pub mod sim;
