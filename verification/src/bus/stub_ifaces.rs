//! Placeholder interfaces for unit types whose properties are not populated.
//! Their only job is to satisfy `org.freedesktop.DBus.Properties.GetAll` calls
//! from upstream tools so that `systemctl status` etc. don't error out with
//! `UnknownInterface`.

use vstd::prelude::*;

verus! {

/// `.socket` placeholder.
#[derive(Debug, Clone, Copy, Default)]
pub struct SocketStub;

impl SocketStub {
    /// Number of accepted connections so far.
    pub fn n_accepted(&self) -> (r: u32)
        ensures
            r == 0,
    {
        0
    }

    /// Number of currently connected peers.
    pub fn n_connections(&self) -> (r: u32)
        ensures
            r == 0,
    {
        0
    }

    /// Result of last activation.
    pub fn result(&self) -> (r: &'static str)
        ensures
            r@ == "success"@,
    {
        "success"
    }
}

/// `.timer` placeholder.
#[derive(Debug, Clone, Copy, Default)]
pub struct TimerStub;

impl TimerStub {
    /// Microseconds until next elapse (UTC).
    pub fn next_elapse_u_sec_realtime(&self) -> (r: u64)
        ensures
            r == 0,
    {
        0
    }

    /// Microseconds until next elapse (monotonic).
    pub fn next_elapse_u_sec_monotonic(&self) -> (r: u64)
        ensures
            r == 0,
    {
        0
    }

    /// Last time the timer fired.
    pub fn last_trigger_u_sec(&self) -> (r: u64)
        ensures
            r == 0,
    {
        0
    }

    /// Result of last activation.
    pub fn result(&self) -> (r: &'static str)
        ensures
            r@ == "success"@,
    {
        "success"
    }
}

/// `.path` placeholder.
#[derive(Debug, Clone, Copy, Default)]
pub struct PathStub;

impl PathStub {
    /// Result of last activation.
    pub fn result(&self) -> (r: &'static str)
        ensures
            r@ == "success"@,
    {
        "success"
    }
}

/// `.target` placeholder. Targets have no per-type properties beyond `Unit`.
#[derive(Debug, Clone, Copy, Default)]
pub struct TargetStub;

impl TargetStub {
    /// systemd exposes no `.target`-specific properties; this getter exists
    /// solely so the empty interface is well-formed.
    pub fn target_version(&self) -> (r: u32)
        ensures
            r == 0,
    {
        0
    }
}

/// `.scope` placeholder.
#[derive(Debug, Clone, Copy, Default)]
pub struct ScopeStub;

impl ScopeStub {
    /// Result of last operation.
    pub fn result(&self) -> (r: &'static str)
        ensures
            r@ == "success"@,
    {
        "success"
    }
}

} // verus!
