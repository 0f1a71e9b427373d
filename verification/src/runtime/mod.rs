//! Process supervisor and activation engines.
//!
//! The parts that decide: what a unit's state becomes, when a timer fires,
//! which links an `enable` makes, what a child process is given. The parts that
//! act on the system stand outside the library and are told what to do.

pub mod consistency;
pub mod exec;
pub mod execution;
pub mod fidelity;
pub mod install;
pub mod lifecycle;
pub mod manager;
pub mod notify;
pub mod outcomes;
pub mod path;
pub mod properties;
pub mod recurrence;
pub mod schedule;
pub mod service;
pub mod showing;
pub mod socket;
pub mod state;
pub mod timer;
