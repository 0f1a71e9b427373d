//! What `org.freedesktop.systemd1.Service` answers.

use crate::runtime::manager::{Manager, ManagerView};
use crate::text;
use crate::unit::duration::SdDuration;
use crate::unit::exec;
use crate::unit::exec::{copy_strings, ExecCommand, ExecFlags, ExecView};
use crate::unit::name::{NameView, UnitName};
use crate::unit::name_map;
use crate::unit::service::{Restart, ServiceType, ServiceUnit, ServiceView};
use crate::unit::spec::{TypeView, UnitTypeData};
use vstd::prelude::*;

verus! {

/// The service of a unit, where it is loaded and one.
pub open spec fn service_in(m: ManagerView, n: NameView) -> Option<ServiceView> {
    match name_map::found(m.units, n) {
        Some(lu) => match lu.unit.kind {
            TypeView::Service(s) => Some(s),
            _ => None,
        },
        None => None,
    }
}

/// The service of a unit, where it is loaded and one.
pub fn service_of<'a>(m: &'a Manager, n: &UnitName) -> (r: Option<&'a ServiceUnit>)
    ensures
        match r {
            Some(s) => service_in(m@, n@) == Some(s@),
            None => service_in(m@, n@) is None,
        },
{
    match m.units.lookup(n) {
        Some(lu) => match &lu.unit.kind {
            UnitTypeData::Service(s) => Some(s),
            _ => None,
        },
        None => None,
    }
}

/// The systemd-canonical name of a service type.
pub open spec fn service_type_text(t: ServiceType) -> Seq<char> {
    match t {
        ServiceType::Simple => "simple"@,
        ServiceType::Exec => "exec"@,
        ServiceType::Forking => "forking"@,
        ServiceType::Oneshot => "oneshot"@,
        ServiceType::Notify => "notify"@,
        ServiceType::NotifyReload => "notify-reload"@,
        ServiceType::Dbus => "dbus"@,
        ServiceType::Idle => "idle"@,
    }
}

/// The systemd-canonical name of a service type.
pub fn service_type_str(t: ServiceType) -> (r: &'static str)
    ensures
        r@ == service_type_text(t),
{
    match t {
        ServiceType::Simple => "simple",
        ServiceType::Exec => "exec",
        ServiceType::Forking => "forking",
        ServiceType::Oneshot => "oneshot",
        ServiceType::Notify => "notify",
        ServiceType::NotifyReload => "notify-reload",
        ServiceType::Dbus => "dbus",
        ServiceType::Idle => "idle",
    }
}

/// The systemd-canonical name of a restart policy.
pub open spec fn restart_text(t: Restart) -> Seq<char> {
    match t {
        Restart::No => "no"@,
        Restart::Always => "always"@,
        Restart::OnSuccess => "on-success"@,
        Restart::OnFailure => "on-failure"@,
        Restart::OnAbnormal => "on-abnormal"@,
        Restart::OnWatchdog => "on-watchdog"@,
        Restart::OnAbort => "on-abort"@,
    }
}

/// The systemd-canonical name of a restart policy.
pub fn restart_str(t: Restart) -> (r: &'static str)
    ensures
        r@ == restart_text(t),
{
    match t {
        Restart::No => "no",
        Restart::Always => "always",
        Restart::OnSuccess => "on-success",
        Restart::OnFailure => "on-failure",
        Restart::OnAbnormal => "on-abnormal",
        Restart::OnWatchdog => "on-watchdog",
        Restart::OnAbort => "on-abort",
    }
}

/// A duration in microseconds, as far as they fit.
pub open spec fn micros(d: SdDuration) -> u64 {
    match d {
        SdDuration::Finite(d) => if d.total() / 1000 <= u64::MAX {
            (d.total() / 1000) as u64
        } else {
            u64::MAX
        },
        SdDuration::Infinity => u64::MAX,
    }
}

/// A duration in microseconds, as far as they fit.
pub fn duration_us(d: SdDuration) -> (r: u64)
    ensures
        r == micros(d),
{
    match d {
        SdDuration::Finite(d) => {
            let n = d.as_micros();
            if n <= u64::MAX as u128 {
                n as u64
            } else {
                u64::MAX
            }
        },
        SdDuration::Infinity => u64::MAX,
    }
}

/// A duration in microseconds, zero where it is not set.
pub open spec fn opt_micros(d: Option<SdDuration>) -> u64 {
    match d {
        Some(d) => micros(d),
        None => 0,
    }
}

fn opt_duration_us(d: Option<SdDuration>) -> (r: u64)
    ensures
        r == opt_micros(d),
{
    match d {
        Some(d) => duration_us(d),
        None => 0,
    }
}

/// `Type` — `simple`, `oneshot`, etc.
pub fn type_property(m: &Manager, n: &UnitName) -> (r: &'static str)
    ensures
        r@ == match service_in(m@, n@) {
            Some(s) => service_type_text(s.service_type),
            None => "simple"@,
        },
{
    match service_of(m, n) {
        Some(s) => service_type_str(s.service_type),
        None => "simple",
    }
}

/// `Restart` policy.
pub fn restart_property(m: &Manager, n: &UnitName) -> (r: &'static str)
    ensures
        r@ == match service_in(m@, n@) {
            Some(s) => restart_text(s.restart),
            None => "no"@,
        },
{
    match service_of(m, n) {
        Some(s) => restart_str(s.restart),
        None => "no",
    }
}

/// A duration of a service.
#[derive(Debug, Clone, Copy, PartialEq, Eq, Structural)]
pub enum Timing {
    Restart,
    TimeoutStart,
    TimeoutStop,
    Watchdog,
}

/// `RestartUSec`, `TimeoutStartUSec`, `TimeoutStopUSec` or `WatchdogUSec`.
pub fn timing_property(m: &Manager, n: &UnitName, t: Timing) -> (r: u64)
    ensures
        r == match service_in(m@, n@) {
            Some(s) => match t {
                Timing::Restart => micros(s.restart_sec),
                Timing::TimeoutStart => opt_micros(s.timeout_start_sec),
                Timing::TimeoutStop => opt_micros(s.timeout_stop_sec),
                Timing::Watchdog => opt_micros(s.watchdog_sec),
            },
            None => 0,
        },
{
    match service_of(m, n) {
        Some(s) => match t {
            Timing::Restart => duration_us(s.restart_sec),
            Timing::TimeoutStart => opt_duration_us(s.timeout_start_sec),
            Timing::TimeoutStop => opt_duration_us(s.timeout_stop_sec),
            Timing::Watchdog => opt_duration_us(s.watchdog_sec),
        },
        None => 0,
    }
}

/// `MainPID` — main process pid (0 if not running).
pub fn main_pid(m: &Manager, n: &UnitName) -> (r: u32)
    ensures
        r == match name_map::found(m@.services, n@) {
            Some(s) => match s.run.main_pid {
                Some(p) => if p > 0 {
                    p as u32
                } else {
                    0
                },
                None => 0,
            },
            None => 0,
        },
{
    match m.services.lookup(n) {
        Some(s) => match s.main_pid {
            Some(p) => if p > 0 {
                p as u32
            } else {
                0
            },
            None => 0,
        },
        None => 0,
    }
}

/// One `ExecStart=` command: what is run, and whether a failure is ignored.
/// Times, pid and status of a run are not kept.
#[derive(Debug, PartialEq, Eq)]
pub struct ExecEntry {
    pub path: String,
    pub argv: Vec<String>,
    pub ignore_failure: bool,
}

/// An [`ExecEntry`] by its characters.
pub struct ExecEntryView {
    pub path: Seq<char>,
    pub argv: Seq<Seq<char>>,
    pub ignore_failure: bool,
}

impl View for ExecEntry {
    type V = ExecEntryView;

    open spec fn view(&self) -> ExecEntryView {
        ExecEntryView {
            path: self.path@,
            argv: text::texts(self.argv@),
            ignore_failure: self.ignore_failure,
        }
    }
}

/// The views of a list of entries.
pub open spec fn exec_entries_view(v: Seq<ExecEntry>) -> Seq<ExecEntryView> {
    v.map_values(|e: ExecEntry| e@)
}

/// The entry of a command.
pub open spec fn exec_entry(c: ExecView) -> ExecEntryView {
    ExecEntryView {
        path: c.program,
        argv: c.argv,
        ignore_failure: crate::runtime::service::ignores_failure(c),
    }
}

fn exec_entries(cs: &Vec<ExecCommand>) -> (r: Vec<ExecEntry>)
    ensures
        exec_entries_view(r@) == exec::commands_view(cs@).map_values(|c: ExecView| exec_entry(c)),
{
    let ghost all = exec::commands_view(cs@).map_values(|c: ExecView| exec_entry(c));
    let mut out: Vec<ExecEntry> = Vec::new();
    let mut i: usize = 0;
    proof {
        assert(exec_entries_view(out@) =~= all.take(0));
    }
    while i < cs.len()
        invariant
            i <= cs.len(),
            all == exec::commands_view(cs@).map_values(|c: ExecView| exec_entry(c)),
            exec_entries_view(out@) == all.take(i as int),
        decreases cs.len() - i,
    {
        let ghost before = out@;
        let c = &cs[i];
        out.push(
            ExecEntry {
                path: c.program.clone(),
                argv: copy_strings(&c.argv),
                ignore_failure: c.flags.contains(ExecFlags::IGNORE_FAILURE),
            },
        );
        proof {
            assert(all[i as int] == exec_entry(cs@[i as int]@));
            assert(exec_entries_view(out@) =~= exec_entries_view(before).push(all[i as int]));
            assert(all.take(i + 1) =~= all.take(i as int).push(all[i as int]));
        }
        i = i + 1;
    }
    proof {
        assert(all.take(all.len() as int) =~= all);
    }
    out
}

/// `ExecStart` — every `ExecStart=` command.
pub fn exec_start(m: &Manager, n: &UnitName) -> (r: Vec<ExecEntry>)
    ensures
        exec_entries_view(r@) == match service_in(m@, n@) {
            Some(s) => s.exec_start.map_values(|c: ExecView| exec_entry(c)),
            None => seq![],
        },
{
    match service_of(m, n) {
        Some(s) => exec_entries(&s.exec_start),
        None => {
            let out: Vec<ExecEntry> = Vec::new();
            proof {
                assert(exec_entries_view(out@) =~= seq![]);
            }
            out
        },
    }
}

} // verus!
