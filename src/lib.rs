//! A process supervisor core: per-process state machine, job fan-out,
//! the job set with its reload diff, and the control protocol.
//!
//! Everything that touches the operating system (spawning, signalling,
//! reaping, sockets, clocks) is done by the caller, which hands the
//! library plain observations and carries out the orders it returns.

pub mod config;
pub mod control;
pub mod discovery;
pub mod job;
pub mod jobs;
pub mod laws;
pub mod listener;
pub mod process;
pub mod sleeper;
pub mod text;
