//! A systemd-compatible service manager for user sessions, as a verified
//! library.

pub mod bus;
pub mod civil;
pub mod client;
pub mod ctl;
pub mod deps;
pub mod journal;
pub mod keys;
pub mod number;
pub mod paths;
pub mod reporting;
pub mod runtime;
pub mod text;
pub mod text_map;
pub mod unit;
