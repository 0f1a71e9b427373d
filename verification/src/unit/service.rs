//! `[Service]` section: typed view + parsing helpers.

use crate::number;
use crate::number::{parse_u64, parse_u8};
use crate::text;
use crate::text::{
    chars_of, debug_text, is_str, same, split_once, starts_with, string_of, strip_prefix, to_lower,
};
use crate::unit::duration::{SdDuration, TimeSpan};
use crate::unit::env;
use crate::unit::env::{EnvironmentFile, EnvironmentFileView};
use crate::unit::exec;
use crate::unit::exec::{ExecCommand, ExecView};
use vstd::prelude::*;

verus! {

/// `Type=` — service main-process model.
#[derive(Debug, Clone, Copy, PartialEq, Eq, Structural)]
pub enum ServiceType {
    /// Process is the main service. Started when fork+exec returns. **Default.**
    Simple,
    /// Like simple but signals start completion at the moment of `execve`.
    Exec,
    /// Process forks; the original exits, the child is the main process.
    Forking,
    /// Process runs to completion. Default `RemainAfterExit=no`.
    Oneshot,
    /// Process notifies readiness via `sd_notify(READY=1)`.
    Notify,
    /// Like Notify but only stops on explicit `STOPPING=1`.
    NotifyReload,
    /// Process acquires `BusName=` on D-Bus.
    Dbus,
    /// Like simple but delayed until current jobs complete.
    Idle,
}

/// The type that a `Type=` value stands for.
pub open spec fn service_type_of(s: Seq<char>) -> Result<ServiceType, Seq<char>> {
    if s == "simple"@ {
        Ok(ServiceType::Simple)
    } else if s == "exec"@ {
        Ok(ServiceType::Exec)
    } else if s == "forking"@ {
        Ok(ServiceType::Forking)
    } else if s == "oneshot"@ {
        Ok(ServiceType::Oneshot)
    } else if s == "notify"@ {
        Ok(ServiceType::Notify)
    } else if s == "notify-reload"@ {
        Ok(ServiceType::NotifyReload)
    } else if s == "dbus"@ {
        Ok(ServiceType::Dbus)
    } else if s == "idle"@ {
        Ok(ServiceType::Idle)
    } else {
        Err("unknown Type= "@ + text::debug_form(s))
    }
}

impl ServiceType {
    /// Parse from a directive value.
    pub fn parse(s: &str) -> (r: Result<Self, String>)
        ensures
            match r {
                Ok(v) => service_type_of(s@) == Ok::<ServiceType, Seq<char>>(v),
                Err(e) => service_type_of(s@) == Err::<ServiceType, Seq<char>>(e@),
            },
    {
        if same(s, "simple") {
            Ok(ServiceType::Simple)
        } else if same(s, "exec") {
            Ok(ServiceType::Exec)
        } else if same(s, "forking") {
            Ok(ServiceType::Forking)
        } else if same(s, "oneshot") {
            Ok(ServiceType::Oneshot)
        } else if same(s, "notify") {
            Ok(ServiceType::Notify)
        } else if same(s, "notify-reload") {
            Ok(ServiceType::NotifyReload)
        } else if same(s, "dbus") {
            Ok(ServiceType::Dbus)
        } else if same(s, "idle") {
            Ok(ServiceType::Idle)
        } else {
            let mut m = "unknown Type= ".to_owned();
            m.append(debug_text(s).as_str());
            Err(m)
        }
    }
}

/// `Restart=` policy.
#[derive(Debug, Clone, Copy, PartialEq, Eq, Structural)]
pub enum Restart {
    /// `no` — never auto-restart. **Default.**
    No,
    /// `always`.
    Always,
    /// `on-success` — only when exit code is in SuccessExitStatus.
    OnSuccess,
    /// `on-failure` — non-zero exit, signal, watchdog, or core dump.
    OnFailure,
    /// `on-abnormal` — signal, watchdog, or core dump (not non-zero exit).
    OnAbnormal,
    /// `on-watchdog`.
    OnWatchdog,
    /// `on-abort` — uncaught fatal signal only.
    OnAbort,
}

/// The policy that a `Restart=` value stands for.
pub open spec fn restart_of(s: Seq<char>) -> Result<Restart, Seq<char>> {
    if s == "no"@ {
        Ok(Restart::No)
    } else if s == "always"@ {
        Ok(Restart::Always)
    } else if s == "on-success"@ {
        Ok(Restart::OnSuccess)
    } else if s == "on-failure"@ {
        Ok(Restart::OnFailure)
    } else if s == "on-abnormal"@ {
        Ok(Restart::OnAbnormal)
    } else if s == "on-watchdog"@ {
        Ok(Restart::OnWatchdog)
    } else if s == "on-abort"@ {
        Ok(Restart::OnAbort)
    } else {
        Err("unknown Restart= "@ + text::debug_form(s))
    }
}

impl Restart {
    /// Parse from a directive value.
    pub fn parse(s: &str) -> (r: Result<Self, String>)
        ensures
            match r {
                Ok(v) => restart_of(s@) == Ok::<Restart, Seq<char>>(v),
                Err(e) => restart_of(s@) == Err::<Restart, Seq<char>>(e@),
            },
    {
        if same(s, "no") {
            Ok(Restart::No)
        } else if same(s, "always") {
            Ok(Restart::Always)
        } else if same(s, "on-success") {
            Ok(Restart::OnSuccess)
        } else if same(s, "on-failure") {
            Ok(Restart::OnFailure)
        } else if same(s, "on-abnormal") {
            Ok(Restart::OnAbnormal)
        } else if same(s, "on-watchdog") {
            Ok(Restart::OnWatchdog)
        } else if same(s, "on-abort") {
            Ok(Restart::OnAbort)
        } else {
            let mut m = "unknown Restart= ".to_owned();
            m.append(debug_text(s).as_str());
            Err(m)
        }
    }
}

/// What happened to a child process — used for restart decisions.
#[derive(Debug, Clone, Copy, PartialEq, Eq, Structural)]
pub enum ProcessOutcome {
    /// exit(0) (or in SuccessExitStatus).
    ExitedSuccess,
    /// exit(non-zero) (and not in SuccessExitStatus).
    ExitedNonZero,
    /// Killed by signal.
    Signaled,
    /// Watchdog fired.
    Watchdog,
    /// Core dumped.
    CoreDumped,
}

/// Whether a process was ended by a signal.
pub open spec fn died_of_signal(o: ProcessOutcome) -> bool {
    o is Signaled || o is CoreDumped
}

/// Whether a policy restarts a service after an outcome.
pub open spec fn restarts(policy: Restart, o: ProcessOutcome) -> bool {
    match policy {
        Restart::No => false,
        Restart::Always => true,
        Restart::OnSuccess => o is ExitedSuccess,
        Restart::OnFailure => !(o is ExitedSuccess),
        Restart::OnAbnormal => died_of_signal(o) || o is Watchdog,
        Restart::OnWatchdog => o is Watchdog,
        Restart::OnAbort => died_of_signal(o),
    }
}

impl Restart {
    /// Should the service be restarted given an outcome?
    pub fn should_restart(self, outcome: ProcessOutcome) -> (r: bool)
        ensures
            r == restarts(self, outcome),
    {
        match (self, outcome) {
            (Restart::No, _) => false,
            (Restart::Always, _) => true,
            (Restart::OnSuccess, ProcessOutcome::ExitedSuccess) => true,
            (Restart::OnFailure, ProcessOutcome::ExitedNonZero) => true,
            (Restart::OnFailure, ProcessOutcome::Signaled) => true,
            (Restart::OnFailure, ProcessOutcome::Watchdog) => true,
            (Restart::OnFailure, ProcessOutcome::CoreDumped) => true,
            (Restart::OnAbnormal, ProcessOutcome::Signaled) => true,
            (Restart::OnAbnormal, ProcessOutcome::Watchdog) => true,
            (Restart::OnAbnormal, ProcessOutcome::CoreDumped) => true,
            (Restart::OnWatchdog, ProcessOutcome::Watchdog) => true,
            (Restart::OnAbort, ProcessOutcome::Signaled) => true,
            (Restart::OnAbort, ProcessOutcome::CoreDumped) => true,
            _ => false,
        }
    }
}

/// A stricter policy restarts no service that a wider one leaves down: what
/// `on-abort` and `on-watchdog` restart, `on-abnormal` restarts; what that
/// restarts, `on-failure` restarts; and `on-failure` and `on-success` divide
/// the outcomes between them.
pub proof fn restart_policies_nest(o: ProcessOutcome)
    ensures
        restarts(Restart::OnAbnormal, o) == (restarts(Restart::OnAbort, o) || restarts(
            Restart::OnWatchdog,
            o,
        )),
        restarts(Restart::OnAbnormal, o) ==> restarts(Restart::OnFailure, o),
        restarts(Restart::OnFailure, o) != restarts(Restart::OnSuccess, o),
{
}

/// `NotifyAccess=`.
#[derive(Debug, Clone, Copy, PartialEq, Eq, Structural)]
pub enum NotifyAccess {
    /// Default for non-notify types.
    Nobody,
    /// Only main PID may notify.
    Main,
    /// Only main PID and `Exec*=` children may notify.
    Exec,
    /// Any process in the cgroup may notify.
    All,
}

/// The access that a `NotifyAccess=` value stands for.
pub open spec fn notify_access_of(s: Seq<char>) -> Result<NotifyAccess, Seq<char>> {
    if s == "none"@ {
        Ok(NotifyAccess::Nobody)
    } else if s == "main"@ {
        Ok(NotifyAccess::Main)
    } else if s == "exec"@ {
        Ok(NotifyAccess::Exec)
    } else if s == "all"@ {
        Ok(NotifyAccess::All)
    } else {
        Err("unknown NotifyAccess= "@ + text::debug_form(s))
    }
}

impl NotifyAccess {
    /// Parse from a directive value.
    pub fn parse(s: &str) -> (r: Result<Self, String>)
        ensures
            match r {
                Ok(v) => notify_access_of(s@) == Ok::<NotifyAccess, Seq<char>>(v),
                Err(e) => notify_access_of(s@) == Err::<NotifyAccess, Seq<char>>(e@),
            },
    {
        if same(s, "none") {
            Ok(NotifyAccess::Nobody)
        } else if same(s, "main") {
            Ok(NotifyAccess::Main)
        } else if same(s, "exec") {
            Ok(NotifyAccess::Exec)
        } else if same(s, "all") {
            Ok(NotifyAccess::All)
        } else {
            let mut m = "unknown NotifyAccess= ".to_owned();
            m.append(debug_text(s).as_str());
            Err(m)
        }
    }
}

/// `KillMode=`.
#[derive(Debug, Clone, Copy, PartialEq, Eq, Structural)]
pub enum KillMode {
    /// Send signal to every process in the cgroup. **systemd default.** On
    /// macOS this is approximated via process-group kill.
    ControlGroup,
    /// Kill only the main process.
    Process,
    /// Send SIGTERM to main, SIGKILL to whole group on timeout.
    Mixed,
    /// Don't send anything; rely on `ExecStop=`.
    Nothing,
}

/// The mode that a `KillMode=` value stands for.
pub open spec fn kill_mode_of(s: Seq<char>) -> Result<KillMode, Seq<char>> {
    if s == "control-group"@ || s == "cgroup"@ {
        Ok(KillMode::ControlGroup)
    } else if s == "process"@ {
        Ok(KillMode::Process)
    } else if s == "mixed"@ {
        Ok(KillMode::Mixed)
    } else if s == "none"@ {
        Ok(KillMode::Nothing)
    } else {
        Err("unknown KillMode= "@ + text::debug_form(s))
    }
}

impl KillMode {
    /// Parse from a directive value.
    pub fn parse(s: &str) -> (r: Result<Self, String>)
        ensures
            match r {
                Ok(v) => kill_mode_of(s@) == Ok::<KillMode, Seq<char>>(v),
                Err(e) => kill_mode_of(s@) == Err::<KillMode, Seq<char>>(e@),
            },
    {
        if same(s, "control-group") || same(s, "cgroup") {
            Ok(KillMode::ControlGroup)
        } else if same(s, "process") {
            Ok(KillMode::Process)
        } else if same(s, "mixed") {
            Ok(KillMode::Mixed)
        } else if same(s, "none") {
            Ok(KillMode::Nothing)
        } else {
            let mut m = "unknown KillMode= ".to_owned();
            m.append(debug_text(s).as_str());
            Err(m)
        }
    }
}

/// `StandardInput=` / `StandardOutput=` / `StandardError=`.
#[derive(Debug, PartialEq, Eq)]
pub enum StandardStream {
    /// Inherit from manager.
    Inherit,
    /// `/dev/null`.
    Null,
    /// TTY at `TTYPath=`.
    Tty,
    /// Read/append to a file (`file:/path`, `append:/path`, `truncate:/path`).
    File(String),
    /// Append to a file.
    Append(String),
    /// Truncate to a file.
    Truncate(String),
    /// Connect to a socket — used for stdio of socket-activated services.
    Socket,
    /// `fd:NAME` — connect to named fd from socket activation.
    Fd(String),
    /// `journal` / `journal+console` / etc. — accepted but routed to file
    /// fallback under SystemL (no journald). Stored verbatim for round-trip.
    Journal(String),
    /// `kmsg`, `syslog` — Linux-only sinks; logged-and-ignored.
    LinuxOnly(String),
}

/// A [`StandardStream`] by its characters.
pub enum StreamView {
    Inherit,
    Null,
    Tty,
    File(Seq<char>),
    Append(Seq<char>),
    Truncate(Seq<char>),
    Socket,
    Fd(Seq<char>),
    Journal(Seq<char>),
    LinuxOnly(Seq<char>),
}

impl View for StandardStream {
    type V = StreamView;

    open spec fn view(&self) -> StreamView {
        match *self {
            StandardStream::Inherit => StreamView::Inherit,
            StandardStream::Null => StreamView::Null,
            StandardStream::Tty => StreamView::Tty,
            StandardStream::File(s) => StreamView::File(s@),
            StandardStream::Append(s) => StreamView::Append(s@),
            StandardStream::Truncate(s) => StreamView::Truncate(s@),
            StandardStream::Socket => StreamView::Socket,
            StandardStream::Fd(s) => StreamView::Fd(s@),
            StandardStream::Journal(s) => StreamView::Journal(s@),
            StandardStream::LinuxOnly(s) => StreamView::LinuxOnly(s@),
        }
    }
}

/// The sink that a stdio directive value stands for.
pub open spec fn stream_of(s: Seq<char>) -> Result<StreamView, Seq<char>> {
    if s == "inherit"@ {
        Ok(StreamView::Inherit)
    } else if s == "null"@ {
        Ok(StreamView::Null)
    } else if s == "tty"@ {
        Ok(StreamView::Tty)
    } else if s == "socket"@ {
        Ok(StreamView::Socket)
    } else if text::begins_with(s, "file:"@) {
        Ok(StreamView::File(s.skip("file:"@.len() as int)))
    } else if text::begins_with(s, "append:"@) {
        Ok(StreamView::Append(s.skip("append:"@.len() as int)))
    } else if text::begins_with(s, "truncate:"@) {
        Ok(StreamView::Truncate(s.skip("truncate:"@.len() as int)))
    } else if text::begins_with(s, "fd:"@) {
        Ok(StreamView::Fd(s.skip("fd:"@.len() as int)))
    } else if text::begins_with(s, "journal"@) {
        Ok(StreamView::Journal(s))
    } else if text::begins_with(s, "kmsg"@) || text::begins_with(s, "syslog"@) {
        Ok(StreamView::LinuxOnly(s))
    } else {
        Err("unknown stdio sink "@ + text::debug_form(s))
    }
}

impl StandardStream {
    /// Parse a `StandardOutput=`-style directive value.
    pub fn parse(s: &str) -> (r: Result<Self, String>)
        ensures
            match r {
                Ok(v) => stream_of(s@) == Ok::<StreamView, Seq<char>>(v@),
                Err(e) => stream_of(s@) == Err::<StreamView, Seq<char>>(e@),
            },
    {
        let chars = chars_of(s);
        let c = chars.as_slice();
        if same(s, "inherit") {
            return Ok(StandardStream::Inherit);
        }
        if same(s, "null") {
            return Ok(StandardStream::Null);
        }
        if same(s, "tty") {
            return Ok(StandardStream::Tty);
        }
        if same(s, "socket") {
            return Ok(StandardStream::Socket);
        }
        if let Some(rest) = strip_prefix(c, "file:") {
            return Ok(StandardStream::File(string_of(rest)));
        }
        if let Some(rest) = strip_prefix(c, "append:") {
            return Ok(StandardStream::Append(string_of(rest)));
        }
        if let Some(rest) = strip_prefix(c, "truncate:") {
            return Ok(StandardStream::Truncate(string_of(rest)));
        }
        if let Some(rest) = strip_prefix(c, "fd:") {
            return Ok(StandardStream::Fd(string_of(rest)));
        }
        if starts_with(c, "journal") {
            return Ok(StandardStream::Journal(s.to_owned()));
        }
        if starts_with(c, "kmsg") || starts_with(c, "syslog") {
            return Ok(StandardStream::LinuxOnly(s.to_owned()));
        }
        let mut m = "unknown stdio sink ".to_owned();
        m.append(debug_text(s).as_str());
        Err(m)
    }
}

/// Exit-status spec: a numeric code or a signal name.
#[derive(Debug, PartialEq, Eq)]
pub enum ExitStatus {
    /// Numeric exit code.
    Code(u8),
    /// Signal name (e.g. `SIGTERM`).
    Signal(String),
}

/// An [`ExitStatus`] by its characters.
pub enum ExitStatusView {
    Code(u8),
    Signal(Seq<char>),
}

impl View for ExitStatus {
    type V = ExitStatusView;

    open spec fn view(&self) -> ExitStatusView {
        match *self {
            ExitStatus::Code(n) => ExitStatusView::Code(n),
            ExitStatus::Signal(s) => ExitStatusView::Signal(s@),
        }
    }
}

/// The views of a list of exit statuses.
pub open spec fn exit_statuses_view(v: Seq<ExitStatus>) -> Seq<ExitStatusView> {
    v.map_values(|e: ExitStatus| e@)
}

/// The exit status that a word stands for.
pub open spec fn exit_status_of(s: Seq<char>) -> Result<ExitStatusView, Seq<char>> {
    match number::uint_of(s, 10, 0xff) {
        Ok(n) => Ok(ExitStatusView::Code(n as u8)),
        Err(_) => if text::begins_with(s, "SIG"@) {
            Ok(ExitStatusView::Signal(s))
        } else {
            Err("not an exit code or signal: "@ + text::debug_form(s))
        },
    }
}

impl ExitStatus {
    /// Parse a single token.
    pub fn parse(s: &str) -> (r: Result<Self, String>)
        ensures
            match r {
                Ok(v) => exit_status_of(s@) == Ok::<ExitStatusView, Seq<char>>(v@),
                Err(e) => exit_status_of(s@) == Err::<ExitStatusView, Seq<char>>(e@),
            },
    {
        let chars = chars_of(s);
        match parse_u8(chars.as_slice()) {
            Ok(n) => Ok(ExitStatus::Code(n)),
            Err(_) => {
                if starts_with(chars.as_slice(), "SIG") {
                    Ok(ExitStatus::Signal(s.to_owned()))
                } else {
                    let mut m = "not an exit code or signal: ".to_owned();
                    m.append(debug_text(s).as_str());
                    Err(m)
                }
            },
        }
    }
}

/// `LimitNOFILE=` etc. — soft and optional hard limits.
#[derive(Debug, Clone, Copy, PartialEq, Eq)]
pub struct RLimit {
    /// Soft limit. `None` means infinity.
    pub soft: Option<u64>,
    /// Hard limit. `None` means infinity.
    pub hard: Option<u64>,
}

/// One limit: a number, or `infinity` in either case.
pub open spec fn one_limit(s: Seq<char>) -> Result<Option<u64>, Seq<char>> {
    if text::lowered(s) == "infinity"@ {
        Ok(None)
    } else {
        match number::uint_of(s, 10, 0xffff_ffff_ffff_ffff) {
            Ok(n) => Ok(Some(n as u64)),
            Err(e) => Err(number::int_error_text(e)),
        }
    }
}

/// The limits that a value stands for: `N`, `N:M` or `infinity`.
pub open spec fn rlimit_of(s: Seq<char>) -> Result<RLimit, Seq<char>> {
    match text::split_at_first(s, ':') {
        Some((a, b)) => match one_limit(a) {
            Err(e) => Err(e),
            Ok(soft) => match one_limit(b) {
                Err(e) => Err(e),
                Ok(hard) => Ok(RLimit { soft, hard }),
            },
        },
        None => match one_limit(s) {
            Err(e) => Err(e),
            Ok(v) => Ok(RLimit { soft: v, hard: v }),
        },
    }
}

fn parse_limit(t: &[char]) -> (r: Result<Option<u64>, String>)
    ensures
        match r {
            Ok(v) => one_limit(t@) == Ok::<Option<u64>, Seq<char>>(v),
            Err(e) => one_limit(t@) == Err::<Option<u64>, Seq<char>>(e@),
        },
{
    let low = to_lower(t);
    if is_str(low.as_slice(), "infinity") {
        return Ok(None);
    }
    match parse_u64(t) {
        Ok(n) => Ok(Some(n)),
        Err(e) => Err(e.message().to_owned()),
    }
}

impl RLimit {
    /// Parse `Limit*=N` or `Limit*=N:M` or `Limit*=infinity`.
    pub fn parse(s: &str) -> (r: Result<Self, String>)
        ensures
            match r {
                Ok(v) => rlimit_of(s@) == Ok::<RLimit, Seq<char>>(v),
                Err(e) => rlimit_of(s@) == Err::<RLimit, Seq<char>>(e@),
            },
    {
        let chars = chars_of(s);
        match split_once(chars.as_slice(), ':') {
            Some((a, b)) => match parse_limit(a) {
                Err(e) => Err(e),
                Ok(soft) => match parse_limit(b) {
                    Err(e) => Err(e),
                    Ok(hard) => Ok(RLimit { soft, hard }),
                },
            },
            None => match parse_limit(chars.as_slice()) {
                Err(e) => Err(e),
                Ok(v) => Ok(RLimit { soft: v, hard: v }),
            },
        }
    }
}

/// The views of a list of triples.
pub open spec fn triples_view(v: Seq<(String, String, String)>) -> Seq<
    (Seq<char>, Seq<char>, Seq<char>),
> {
    v.map_values(|p: (String, String, String)| (p.0@, p.1@, p.2@))
}

/// Fully-typed `[Service]` section.
#[derive(Debug, PartialEq, Eq)]
pub struct ServiceUnit {
    /// `Type=` (default `simple`).
    pub service_type: ServiceType,
    /// `RemainAfterExit=`.
    pub remain_after_exit: bool,
    /// `GuessMainPID=`.
    pub guess_main_pid: bool,
    /// `PIDFile=`.
    pub pid_file: Option<String>,
    /// `BusName=` (for `Type=dbus`).
    pub bus_name: Option<String>,
    /// `NotifyAccess=`.
    pub notify_access: NotifyAccess,
    /// `ExecStartPre=`.
    pub exec_start_pre: Vec<ExecCommand>,
    /// `ExecStart=`.
    pub exec_start: Vec<ExecCommand>,
    /// `ExecStartPost=`.
    pub exec_start_post: Vec<ExecCommand>,
    /// `ExecCondition=`.
    pub exec_condition: Vec<ExecCommand>,
    /// `ExecReload=`.
    pub exec_reload: Vec<ExecCommand>,
    /// `ExecStop=`.
    pub exec_stop: Vec<ExecCommand>,
    /// `ExecStopPost=`.
    pub exec_stop_post: Vec<ExecCommand>,
    /// `Restart=` (default `no`).
    pub restart: Restart,
    /// `RestartSec=` (default 100ms).
    pub restart_sec: SdDuration,
    /// `RestartSteps=`.
    pub restart_steps: u32,
    /// `RestartMaxDelaySec=`.
    pub restart_max_delay_sec: Option<SdDuration>,
    /// `TimeoutStartSec=`.
    pub timeout_start_sec: Option<SdDuration>,
    /// `TimeoutStopSec=`.
    pub timeout_stop_sec: Option<SdDuration>,
    /// `TimeoutAbortSec=`.
    pub timeout_abort_sec: Option<SdDuration>,
    /// `RuntimeMaxSec=`.
    pub runtime_max_sec: Option<SdDuration>,
    /// `RuntimeRandomizedExtraSec=`.
    pub runtime_random_extra_sec: Option<SdDuration>,
    /// `WatchdogSec=`.
    pub watchdog_sec: Option<SdDuration>,
    /// `StartLimitIntervalSec=`.
    pub start_limit_interval_sec: Option<SdDuration>,
    /// `StartLimitBurst=`.
    pub start_limit_burst: u32,
    /// `StartLimitAction=`.
    pub start_limit_action: Option<String>,
    /// `Environment=`.
    pub environment: Vec<(String, String)>,
    /// `EnvironmentFile=`.
    pub environment_files: Vec<EnvironmentFile>,
    /// `PassEnvironment=`.
    pub pass_environment: Vec<String>,
    /// `UnsetEnvironment=`.
    pub unset_environment: Vec<String>,
    /// `WorkingDirectory=`. `~` expands to user home.
    pub working_directory: Option<String>,
    /// `RootDirectory=`.
    pub root_directory: Option<String>,
    /// `User=`.
    pub user: Option<String>,
    /// `Group=`.
    pub group: Option<String>,
    /// `SupplementaryGroups=`.
    pub supplementary_groups: Vec<String>,
    /// `UMask=` — octal.
    pub umask: Option<u32>,
    /// `Nice=`.
    pub nice: Option<i32>,
    /// `StandardInput=`.
    pub standard_input: StandardStream,
    /// `StandardOutput=`.
    pub standard_output: StandardStream,
    /// `StandardError=`.
    pub standard_error: StandardStream,
    /// `KillMode=`.
    pub kill_mode: KillMode,
    /// `KillSignal=` (default SIGTERM).
    pub kill_signal: Option<String>,
    /// `RestartKillSignal=`.
    pub restart_kill_signal: Option<String>,
    /// `FinalKillSignal=`.
    pub final_kill_signal: Option<String>,
    /// `WatchdogSignal=`.
    pub watchdog_signal: Option<String>,
    /// `SendSIGKILL=`.
    pub send_sigkill: bool,
    /// `SendSIGHUP=`.
    pub send_sighup: bool,
    /// `SuccessExitStatus=`.
    pub success_exit_status: Vec<ExitStatus>,
    /// `RestartPreventExitStatus=`.
    pub restart_prevent_exit_status: Vec<ExitStatus>,
    /// `RestartForceExitStatus=`.
    pub restart_force_exit_status: Vec<ExitStatus>,
    /// `LimitNOFILE=`.
    pub limit_nofile: Option<RLimit>,
    /// `LimitNPROC=`.
    pub limit_nproc: Option<RLimit>,
    /// `LimitCORE=`.
    pub limit_core: Option<RLimit>,
    /// `LimitAS=`.
    pub limit_as: Option<RLimit>,
    /// `LimitDATA=`.
    pub limit_data: Option<RLimit>,
    /// `LimitSTACK=`.
    pub limit_stack: Option<RLimit>,
    /// `LimitFSIZE=`.
    pub limit_fsize: Option<RLimit>,
    /// `LimitCPU=`.
    pub limit_cpu: Option<RLimit>,
    /// `LimitRSS=`.
    pub limit_rss: Option<RLimit>,
    /// `LimitMEMLOCK=`.
    pub limit_memlock: Option<RLimit>,
    /// `LimitMSGQUEUE=`.
    pub limit_msgqueue: Option<RLimit>,
    /// `LimitNICE=`.
    pub limit_nice: Option<RLimit>,
    /// `LimitRTPRIO=`.
    pub limit_rtprio: Option<RLimit>,
    /// `LimitRTTIME=`.
    pub limit_rttime: Option<RLimit>,
    /// `LimitSIGPENDING=`.
    pub limit_sigpending: Option<RLimit>,
    /// `LimitLOCKS=`.
    pub limit_locks: Option<RLimit>,
    /// `Sockets=` — explicit socket-units to attach for fd passing.
    pub sockets: Vec<String>,
    /// `FileDescriptorStoreMax=`.
    pub fd_store_max: u32,
    /// `FileDescriptorStorePreserve=`.
    pub fd_store_preserve: Option<String>,
    /// Linux-only / unknown directives we accepted verbatim. `(section, key, value)`.
    pub passthrough: Vec<(String, String, String)>,
}

/// A [`ServiceUnit`] by its characters.
pub struct ServiceView {
    pub service_type: ServiceType,
    pub remain_after_exit: bool,
    pub guess_main_pid: bool,
    pub pid_file: Option<Seq<char>>,
    pub bus_name: Option<Seq<char>>,
    pub notify_access: NotifyAccess,
    pub exec_start_pre: Seq<ExecView>,
    pub exec_start: Seq<ExecView>,
    pub exec_start_post: Seq<ExecView>,
    pub exec_condition: Seq<ExecView>,
    pub exec_reload: Seq<ExecView>,
    pub exec_stop: Seq<ExecView>,
    pub exec_stop_post: Seq<ExecView>,
    pub restart: Restart,
    pub restart_sec: SdDuration,
    pub restart_steps: u32,
    pub restart_max_delay_sec: Option<SdDuration>,
    pub timeout_start_sec: Option<SdDuration>,
    pub timeout_stop_sec: Option<SdDuration>,
    pub timeout_abort_sec: Option<SdDuration>,
    pub runtime_max_sec: Option<SdDuration>,
    pub runtime_random_extra_sec: Option<SdDuration>,
    pub watchdog_sec: Option<SdDuration>,
    pub start_limit_interval_sec: Option<SdDuration>,
    pub start_limit_burst: u32,
    pub start_limit_action: Option<Seq<char>>,
    pub environment: Seq<(Seq<char>, Seq<char>)>,
    pub environment_files: Seq<EnvironmentFileView>,
    pub pass_environment: Seq<Seq<char>>,
    pub unset_environment: Seq<Seq<char>>,
    pub working_directory: Option<Seq<char>>,
    pub root_directory: Option<Seq<char>>,
    pub user: Option<Seq<char>>,
    pub group: Option<Seq<char>>,
    pub supplementary_groups: Seq<Seq<char>>,
    pub umask: Option<u32>,
    pub nice: Option<i32>,
    pub standard_input: StreamView,
    pub standard_output: StreamView,
    pub standard_error: StreamView,
    pub kill_mode: KillMode,
    pub kill_signal: Option<Seq<char>>,
    pub restart_kill_signal: Option<Seq<char>>,
    pub final_kill_signal: Option<Seq<char>>,
    pub watchdog_signal: Option<Seq<char>>,
    pub send_sigkill: bool,
    pub send_sighup: bool,
    pub success_exit_status: Seq<ExitStatusView>,
    pub restart_prevent_exit_status: Seq<ExitStatusView>,
    pub restart_force_exit_status: Seq<ExitStatusView>,
    pub limit_nofile: Option<RLimit>,
    pub limit_nproc: Option<RLimit>,
    pub limit_core: Option<RLimit>,
    pub limit_as: Option<RLimit>,
    pub limit_data: Option<RLimit>,
    pub limit_stack: Option<RLimit>,
    pub limit_fsize: Option<RLimit>,
    pub limit_cpu: Option<RLimit>,
    pub limit_rss: Option<RLimit>,
    pub limit_memlock: Option<RLimit>,
    pub limit_msgqueue: Option<RLimit>,
    pub limit_nice: Option<RLimit>,
    pub limit_rtprio: Option<RLimit>,
    pub limit_rttime: Option<RLimit>,
    pub limit_sigpending: Option<RLimit>,
    pub limit_locks: Option<RLimit>,
    pub sockets: Seq<Seq<char>>,
    pub fd_store_max: u32,
    pub fd_store_preserve: Option<Seq<char>>,
    pub passthrough: Seq<(Seq<char>, Seq<char>, Seq<char>)>,
}

impl View for ServiceUnit {
    type V = ServiceView;

    open spec fn view(&self) -> ServiceView {
        ServiceView {
            service_type: self.service_type,
            remain_after_exit: self.remain_after_exit,
            guess_main_pid: self.guess_main_pid,
            pid_file: text::opt_text(self.pid_file),
            bus_name: text::opt_text(self.bus_name),
            notify_access: self.notify_access,
            exec_start_pre: exec::commands_view(self.exec_start_pre@),
            exec_start: exec::commands_view(self.exec_start@),
            exec_start_post: exec::commands_view(self.exec_start_post@),
            exec_condition: exec::commands_view(self.exec_condition@),
            exec_reload: exec::commands_view(self.exec_reload@),
            exec_stop: exec::commands_view(self.exec_stop@),
            exec_stop_post: exec::commands_view(self.exec_stop_post@),
            restart: self.restart,
            restart_sec: self.restart_sec,
            restart_steps: self.restart_steps,
            restart_max_delay_sec: self.restart_max_delay_sec,
            timeout_start_sec: self.timeout_start_sec,
            timeout_stop_sec: self.timeout_stop_sec,
            timeout_abort_sec: self.timeout_abort_sec,
            runtime_max_sec: self.runtime_max_sec,
            runtime_random_extra_sec: self.runtime_random_extra_sec,
            watchdog_sec: self.watchdog_sec,
            start_limit_interval_sec: self.start_limit_interval_sec,
            start_limit_burst: self.start_limit_burst,
            start_limit_action: text::opt_text(self.start_limit_action),
            environment: env::pairs_view(self.environment@),
            environment_files: env::environment_files_view(self.environment_files@),
            pass_environment: text::texts(self.pass_environment@),
            unset_environment: text::texts(self.unset_environment@),
            working_directory: text::opt_text(self.working_directory),
            root_directory: text::opt_text(self.root_directory),
            user: text::opt_text(self.user),
            group: text::opt_text(self.group),
            supplementary_groups: text::texts(self.supplementary_groups@),
            umask: self.umask,
            nice: self.nice,
            standard_input: self.standard_input@,
            standard_output: self.standard_output@,
            standard_error: self.standard_error@,
            kill_mode: self.kill_mode,
            kill_signal: text::opt_text(self.kill_signal),
            restart_kill_signal: text::opt_text(self.restart_kill_signal),
            final_kill_signal: text::opt_text(self.final_kill_signal),
            watchdog_signal: text::opt_text(self.watchdog_signal),
            send_sigkill: self.send_sigkill,
            send_sighup: self.send_sighup,
            success_exit_status: exit_statuses_view(self.success_exit_status@),
            restart_prevent_exit_status: exit_statuses_view(self.restart_prevent_exit_status@),
            restart_force_exit_status: exit_statuses_view(self.restart_force_exit_status@),
            limit_nofile: self.limit_nofile,
            limit_nproc: self.limit_nproc,
            limit_core: self.limit_core,
            limit_as: self.limit_as,
            limit_data: self.limit_data,
            limit_stack: self.limit_stack,
            limit_fsize: self.limit_fsize,
            limit_cpu: self.limit_cpu,
            limit_rss: self.limit_rss,
            limit_memlock: self.limit_memlock,
            limit_msgqueue: self.limit_msgqueue,
            limit_nice: self.limit_nice,
            limit_rtprio: self.limit_rtprio,
            limit_rttime: self.limit_rttime,
            limit_sigpending: self.limit_sigpending,
            limit_locks: self.limit_locks,
            sockets: text::texts(self.sockets@),
            fd_store_max: self.fd_store_max,
            fd_store_preserve: text::opt_text(self.fd_store_preserve),
            passthrough: triples_view(self.passthrough@),
        }
    }
}

/// The section in which nothing is set.
pub open spec fn empty_service() -> ServiceView {
    ServiceView {
        service_type: ServiceType::Simple,
        remain_after_exit: false,
        guess_main_pid: false,
        pid_file: None,
        bus_name: None,
        notify_access: NotifyAccess::Nobody,
        exec_start_pre: seq![],
        exec_start: seq![],
        exec_start_post: seq![],
        exec_condition: seq![],
        exec_reload: seq![],
        exec_stop: seq![],
        exec_stop_post: seq![],
        restart: Restart::No,
        restart_sec: SdDuration::Finite(TimeSpan { secs: 0, nanos: 0 }),
        restart_steps: 0,
        restart_max_delay_sec: None,
        timeout_start_sec: None,
        timeout_stop_sec: None,
        timeout_abort_sec: None,
        runtime_max_sec: None,
        runtime_random_extra_sec: None,
        watchdog_sec: None,
        start_limit_interval_sec: None,
        start_limit_burst: 0,
        start_limit_action: None,
        environment: seq![],
        environment_files: seq![],
        pass_environment: seq![],
        unset_environment: seq![],
        working_directory: None,
        root_directory: None,
        user: None,
        group: None,
        supplementary_groups: seq![],
        umask: None,
        nice: None,
        standard_input: StreamView::Inherit,
        standard_output: StreamView::Inherit,
        standard_error: StreamView::Inherit,
        kill_mode: KillMode::ControlGroup,
        kill_signal: None,
        restart_kill_signal: None,
        final_kill_signal: None,
        watchdog_signal: None,
        send_sigkill: false,
        send_sighup: false,
        success_exit_status: seq![],
        restart_prevent_exit_status: seq![],
        restart_force_exit_status: seq![],
        limit_nofile: None,
        limit_nproc: None,
        limit_core: None,
        limit_as: None,
        limit_data: None,
        limit_stack: None,
        limit_fsize: None,
        limit_cpu: None,
        limit_rss: None,
        limit_memlock: None,
        limit_msgqueue: None,
        limit_nice: None,
        limit_rtprio: None,
        limit_rttime: None,
        limit_sigpending: None,
        limit_locks: None,
        sockets: seq![],
        fd_store_max: 0,
        fd_store_preserve: None,
        passthrough: seq![],
    }
}

impl Default for ServiceUnit {
    fn default() -> (r: Self)
        ensures
            r@ == empty_service(),
    {
        let r = ServiceUnit {
            service_type: ServiceType::Simple,
            remain_after_exit: false,
            guess_main_pid: false,
            pid_file: None,
            bus_name: None,
            notify_access: NotifyAccess::Nobody,
            exec_start_pre: Vec::new(),
            exec_start: Vec::new(),
            exec_start_post: Vec::new(),
            exec_condition: Vec::new(),
            exec_reload: Vec::new(),
            exec_stop: Vec::new(),
            exec_stop_post: Vec::new(),
            restart: Restart::No,
            restart_sec: SdDuration::zero(),
            restart_steps: 0,
            restart_max_delay_sec: None,
            timeout_start_sec: None,
            timeout_stop_sec: None,
            timeout_abort_sec: None,
            runtime_max_sec: None,
            runtime_random_extra_sec: None,
            watchdog_sec: None,
            start_limit_interval_sec: None,
            start_limit_burst: 0,
            start_limit_action: None,
            environment: Vec::new(),
            environment_files: Vec::new(),
            pass_environment: Vec::new(),
            unset_environment: Vec::new(),
            working_directory: None,
            root_directory: None,
            user: None,
            group: None,
            supplementary_groups: Vec::new(),
            umask: None,
            nice: None,
            standard_input: StandardStream::Inherit,
            standard_output: StandardStream::Inherit,
            standard_error: StandardStream::Inherit,
            kill_mode: KillMode::ControlGroup,
            kill_signal: None,
            restart_kill_signal: None,
            final_kill_signal: None,
            watchdog_signal: None,
            send_sigkill: false,
            send_sighup: false,
            success_exit_status: Vec::new(),
            restart_prevent_exit_status: Vec::new(),
            restart_force_exit_status: Vec::new(),
            limit_nofile: None,
            limit_nproc: None,
            limit_core: None,
            limit_as: None,
            limit_data: None,
            limit_stack: None,
            limit_fsize: None,
            limit_cpu: None,
            limit_rss: None,
            limit_memlock: None,
            limit_msgqueue: None,
            limit_nice: None,
            limit_rtprio: None,
            limit_rttime: None,
            limit_sigpending: None,
            limit_locks: None,
            sockets: Vec::new(),
            fd_store_max: 0,
            fd_store_preserve: None,
            passthrough: Vec::new(),
        };
        proof {
            assert(r@.exec_start_pre =~= seq![]);
            assert(r@.exec_start =~= seq![]);
            assert(r@.exec_start_post =~= seq![]);
            assert(r@.exec_condition =~= seq![]);
            assert(r@.exec_reload =~= seq![]);
            assert(r@.exec_stop =~= seq![]);
            assert(r@.exec_stop_post =~= seq![]);
            assert(r@.environment =~= seq![]);
            assert(r@.environment_files =~= seq![]);
            assert(r@.pass_environment =~= seq![]);
            assert(r@.unset_environment =~= seq![]);
            assert(r@.supplementary_groups =~= seq![]);
            assert(r@.success_exit_status =~= seq![]);
            assert(r@.restart_prevent_exit_status =~= seq![]);
            assert(r@.restart_force_exit_status =~= seq![]);
            assert(r@.sockets =~= seq![]);
            assert(r@.passthrough =~= seq![]);
        }
        r
    }
}

impl ServiceUnit {
    /// Default `RestartSec=` per systemd: 100ms.
    pub fn default_restart_sec() -> (r: SdDuration)
        ensures
            r == SdDuration::Finite(TimeSpan { secs: 0, nanos: 100_000_000 }),
    {
        SdDuration::Finite(TimeSpan { secs: 0, nanos: 100_000_000 })
    }

    /// Default `TimeoutStartSec=` per systemd: 90s.
    pub fn default_timeout_start_sec() -> (r: SdDuration)
        ensures
            r == SdDuration::Finite(TimeSpan { secs: 90, nanos: 0 }),
    {
        SdDuration::Finite(TimeSpan::from_secs(90))
    }

    /// Default `TimeoutStopSec=` per systemd: 90s.
    pub fn default_timeout_stop_sec() -> (r: SdDuration)
        ensures
            r == SdDuration::Finite(TimeSpan { secs: 90, nanos: 0 }),
    {
        SdDuration::Finite(TimeSpan::from_secs(90))
    }
}

// ---------------------------------------------------------------------
// Copies
// ---------------------------------------------------------------------

impl Clone for StandardStream {
    fn clone(&self) -> (r: Self)
        ensures
            r@ == self@,
    {
        match self {
            StandardStream::Inherit => StandardStream::Inherit,
            StandardStream::Null => StandardStream::Null,
            StandardStream::Tty => StandardStream::Tty,
            StandardStream::Socket => StandardStream::Socket,
            StandardStream::File(s) => StandardStream::File(s.clone()),
            StandardStream::Append(s) => StandardStream::Append(s.clone()),
            StandardStream::Truncate(s) => StandardStream::Truncate(s.clone()),
            StandardStream::Fd(s) => StandardStream::Fd(s.clone()),
            StandardStream::Journal(s) => StandardStream::Journal(s.clone()),
            StandardStream::LinuxOnly(s) => StandardStream::LinuxOnly(s.clone()),
        }
    }
}

impl Clone for ExitStatus {
    fn clone(&self) -> (r: Self)
        ensures
            r@ == self@,
    {
        match self {
            ExitStatus::Code(n) => ExitStatus::Code(*n),
            ExitStatus::Signal(s) => ExitStatus::Signal(s.clone()),
        }
    }
}

/// A copy of an optional text.
fn copy_text(o: &Option<String>) -> (r: Option<String>)
    ensures
        text::opt_text(r) == text::opt_text(*o),
{
    match o {
        Some(s) => Some(s.clone()),
        None => None,
    }
}

/// A copy of a list of commands.
fn copy_commands(v: &Vec<ExecCommand>) -> (r: Vec<ExecCommand>)
    ensures
        exec::commands_view(r@) == exec::commands_view(v@),
{
    let mut out: Vec<ExecCommand> = Vec::new();
    let mut i: usize = 0;
    let ghost all = exec::commands_view(v@);
    proof {
        assert(exec::commands_view(out@) =~= all.take(0));
    }
    while i < v.len()
        invariant
            i <= v.len(),
            all == exec::commands_view(v@),
            exec::commands_view(out@) == all.take(i as int),
        decreases v.len() - i,
    {
        let ghost before = out@;
        out.push(v[i].clone());
        proof {
            assert(exec::commands_view(out@) =~= exec::commands_view(before).push(all[i as int]));
            assert(all.take(i + 1) =~= all.take(i as int).push(all[i as int]));
        }
        i = i + 1;
    }
    proof {
        assert(all.take(all.len() as int) =~= all);
    }
    out
}

/// A copy of a list of environment files.
fn copy_environment_files(v: &Vec<EnvironmentFile>) -> (r: Vec<EnvironmentFile>)
    ensures
        env::environment_files_view(r@) == env::environment_files_view(v@),
{
    let mut out: Vec<EnvironmentFile> = Vec::new();
    let mut i: usize = 0;
    let ghost all = env::environment_files_view(v@);
    proof {
        assert(env::environment_files_view(out@) =~= all.take(0));
    }
    while i < v.len()
        invariant
            i <= v.len(),
            all == env::environment_files_view(v@),
            env::environment_files_view(out@) == all.take(i as int),
        decreases v.len() - i,
    {
        let ghost before = out@;
        out.push(v[i].clone());
        proof {
            assert(env::environment_files_view(out@) =~= env::environment_files_view(before).push(all[i as int]));
            assert(all.take(i + 1) =~= all.take(i as int).push(all[i as int]));
        }
        i = i + 1;
    }
    proof {
        assert(all.take(all.len() as int) =~= all);
    }
    out
}

/// A copy of a list of exit statuses.
fn copy_exit_statuses(v: &Vec<ExitStatus>) -> (r: Vec<ExitStatus>)
    ensures
        exit_statuses_view(r@) == exit_statuses_view(v@),
{
    let mut out: Vec<ExitStatus> = Vec::new();
    let mut i: usize = 0;
    let ghost all = exit_statuses_view(v@);
    proof {
        assert(exit_statuses_view(out@) =~= all.take(0));
    }
    while i < v.len()
        invariant
            i <= v.len(),
            all == exit_statuses_view(v@),
            exit_statuses_view(out@) == all.take(i as int),
        decreases v.len() - i,
    {
        let ghost before = out@;
        out.push(v[i].clone());
        proof {
            assert(exit_statuses_view(out@) =~= exit_statuses_view(before).push(all[i as int]));
            assert(all.take(i + 1) =~= all.take(i as int).push(all[i as int]));
        }
        i = i + 1;
    }
    proof {
        assert(all.take(all.len() as int) =~= all);
    }
    out
}

/// A copy of a list of pairs.
fn copy_pairs(v: &Vec<(String, String)>) -> (r: Vec<(String, String)>)
    ensures
        env::pairs_view(r@) == env::pairs_view(v@),
{
    let mut out: Vec<(String, String)> = Vec::new();
    let mut i: usize = 0;
    let ghost all = env::pairs_view(v@);
    proof {
        assert(env::pairs_view(out@) =~= all.take(0));
    }
    while i < v.len()
        invariant
            i <= v.len(),
            all == env::pairs_view(v@),
            env::pairs_view(out@) == all.take(i as int),
        decreases v.len() - i,
    {
        let ghost before = out@;
        out.push((v[i].0.clone(), v[i].1.clone()));
        proof {
            assert(env::pairs_view(out@) =~= env::pairs_view(before).push(all[i as int]));
            assert(all.take(i + 1) =~= all.take(i as int).push(all[i as int]));
        }
        i = i + 1;
    }
    proof {
        assert(all.take(all.len() as int) =~= all);
    }
    out
}

/// A copy of a list of triples.
fn copy_triples(v: &Vec<(String, String, String)>) -> (r: Vec<(String, String, String)>)
    ensures
        triples_view(r@) == triples_view(v@),
{
    let mut out: Vec<(String, String, String)> = Vec::new();
    let mut i: usize = 0;
    let ghost all = triples_view(v@);
    proof {
        assert(triples_view(out@) =~= all.take(0));
    }
    while i < v.len()
        invariant
            i <= v.len(),
            all == triples_view(v@),
            triples_view(out@) == all.take(i as int),
        decreases v.len() - i,
    {
        let ghost before = out@;
        out.push((v[i].0.clone(), v[i].1.clone(), v[i].2.clone()));
        proof {
            assert(triples_view(out@) =~= triples_view(before).push(all[i as int]));
            assert(all.take(i + 1) =~= all.take(i as int).push(all[i as int]));
        }
        i = i + 1;
    }
    proof {
        assert(all.take(all.len() as int) =~= all);
    }
    out
}

impl Clone for ServiceUnit {
    fn clone(&self) -> (r: Self)
        ensures
            r@ == self@,
    {
        ServiceUnit {
            service_type: self.service_type,
            remain_after_exit: self.remain_after_exit,
            guess_main_pid: self.guess_main_pid,
            pid_file: copy_text(&self.pid_file),
            bus_name: copy_text(&self.bus_name),
            notify_access: self.notify_access,
            exec_start_pre: copy_commands(&self.exec_start_pre),
            exec_start: copy_commands(&self.exec_start),
            exec_start_post: copy_commands(&self.exec_start_post),
            exec_condition: copy_commands(&self.exec_condition),
            exec_reload: copy_commands(&self.exec_reload),
            exec_stop: copy_commands(&self.exec_stop),
            exec_stop_post: copy_commands(&self.exec_stop_post),
            restart: self.restart,
            restart_sec: self.restart_sec,
            restart_steps: self.restart_steps,
            restart_max_delay_sec: self.restart_max_delay_sec,
            timeout_start_sec: self.timeout_start_sec,
            timeout_stop_sec: self.timeout_stop_sec,
            timeout_abort_sec: self.timeout_abort_sec,
            runtime_max_sec: self.runtime_max_sec,
            runtime_random_extra_sec: self.runtime_random_extra_sec,
            watchdog_sec: self.watchdog_sec,
            start_limit_interval_sec: self.start_limit_interval_sec,
            start_limit_burst: self.start_limit_burst,
            start_limit_action: copy_text(&self.start_limit_action),
            environment: copy_pairs(&self.environment),
            environment_files: copy_environment_files(&self.environment_files),
            pass_environment: exec::copy_strings(&self.pass_environment),
            unset_environment: exec::copy_strings(&self.unset_environment),
            working_directory: copy_text(&self.working_directory),
            root_directory: copy_text(&self.root_directory),
            user: copy_text(&self.user),
            group: copy_text(&self.group),
            supplementary_groups: exec::copy_strings(&self.supplementary_groups),
            umask: self.umask,
            nice: self.nice,
            standard_input: self.standard_input.clone(),
            standard_output: self.standard_output.clone(),
            standard_error: self.standard_error.clone(),
            kill_mode: self.kill_mode,
            kill_signal: copy_text(&self.kill_signal),
            restart_kill_signal: copy_text(&self.restart_kill_signal),
            final_kill_signal: copy_text(&self.final_kill_signal),
            watchdog_signal: copy_text(&self.watchdog_signal),
            send_sigkill: self.send_sigkill,
            send_sighup: self.send_sighup,
            success_exit_status: copy_exit_statuses(&self.success_exit_status),
            restart_prevent_exit_status: copy_exit_statuses(&self.restart_prevent_exit_status),
            restart_force_exit_status: copy_exit_statuses(&self.restart_force_exit_status),
            limit_nofile: self.limit_nofile,
            limit_nproc: self.limit_nproc,
            limit_core: self.limit_core,
            limit_as: self.limit_as,
            limit_data: self.limit_data,
            limit_stack: self.limit_stack,
            limit_fsize: self.limit_fsize,
            limit_cpu: self.limit_cpu,
            limit_rss: self.limit_rss,
            limit_memlock: self.limit_memlock,
            limit_msgqueue: self.limit_msgqueue,
            limit_nice: self.limit_nice,
            limit_rtprio: self.limit_rtprio,
            limit_rttime: self.limit_rttime,
            limit_sigpending: self.limit_sigpending,
            limit_locks: self.limit_locks,
            sockets: exec::copy_strings(&self.sockets),
            fd_store_max: self.fd_store_max,
            fd_store_preserve: copy_text(&self.fd_store_preserve),
            passthrough: copy_triples(&self.passthrough),
        }
    }
}

} // verus!
